//! Byte-level codec for the values the epoch cache persists.
//!
//! Epoch keys are 8-byte big-endian integers.  Reward lists and per-voter
//! yield tables are encoded with fixed 8-byte big-endian integers,
//! length-prefixed UTF-8 strings and one tag byte per reward kind, and
//! decoding is proved to invert encoding.

use vstd::prelude::*;
use vstd::utf8::*;
use vstd::string::*;
use crate::types::{apy_views, reward_views, ApyEntry, ApyEntryV, RawReward, RawRewardV, RewardKind};

verus! {

broadcast use vstd::string::group_string_axioms;

// ---------------------------------------------------------------------
// 8-byte big-endian integers
// ---------------------------------------------------------------------

/// The 8-byte big-endian encoding of `v`.
pub open spec fn spec_u64_be(v: u64) -> Seq<u8> {
    seq![
        (v >> 56) as u8,
        (v >> 48) as u8,
        (v >> 40) as u8,
        (v >> 32) as u8,
        (v >> 24) as u8,
        (v >> 16) as u8,
        (v >> 8) as u8,
        v as u8,
    ]
}

/// The integer read back from 8 big-endian bytes.
pub open spec fn spec_u64_from_be(s: Seq<u8>) -> u64 {
    (((s[0] as u64) << 56) | ((s[1] as u64) << 48) | ((s[2] as u64) << 40) | ((s[3] as u64) << 32)
        | ((s[4] as u64) << 24) | ((s[5] as u64) << 16) | ((s[6] as u64) << 8) | (s[7] as u64)) as u64
}

/// Reading back the big-endian bytes of `v` yields `v`.
pub proof fn lemma_u64_be_round_trip(v: u64)
    ensures
        spec_u64_from_be(spec_u64_be(v)) == v,
{
    let s = spec_u64_be(v);
    assert(s[0] == (v >> 56) as u8);
    assert(s[1] == (v >> 48) as u8);
    assert(s[2] == (v >> 40) as u8);
    assert(s[3] == (v >> 32) as u8);
    assert(s[4] == (v >> 24) as u8);
    assert(s[5] == (v >> 16) as u8);
    assert(s[6] == (v >> 8) as u8);
    assert(s[7] == v as u8);
    assert(((((v >> 56) as u8) as u64) << 56) | ((((v >> 48) as u8) as u64) << 48)
        | ((((v >> 40) as u8) as u64) << 40) | ((((v >> 32) as u8) as u64) << 32)
        | ((((v >> 24) as u8) as u64) << 24) | ((((v >> 16) as u8) as u64) << 16)
        | ((((v >> 8) as u8) as u64) << 8) | ((v as u8) as u64) == v) by (bit_vector);
}

/// Distinct integers have distinct big-endian encodings.
pub proof fn lemma_u64_be_injective(a: u64, b: u64)
    requires
        spec_u64_be(a) == spec_u64_be(b),
    ensures
        a == b,
{
    lemma_u64_be_round_trip(a);
    lemma_u64_be_round_trip(b);
}

/// The 8-byte big-endian encoding of `v`, as used for epoch keys.
pub fn u64_to_be_bytes(v: u64) -> (r: Vec<u8>)
    ensures
        r@ == spec_u64_be(v),
{
    let mut r: Vec<u8> = Vec::new();
    r.push((v >> 56) as u8);
    r.push((v >> 48) as u8);
    r.push((v >> 40) as u8);
    r.push((v >> 32) as u8);
    r.push((v >> 24) as u8);
    r.push((v >> 16) as u8);
    r.push((v >> 8) as u8);
    r.push(v as u8);
    proof {
        assert(r@ =~= spec_u64_be(v));
    }
    r
}

/// A signed lamport delta survives the trip through its unsigned bit pattern.
pub proof fn lemma_i64_u64_round_trip(x: i64)
    ensures
        (x as u64) as i64 == x,
{
    assert((x as u64) as i64 == x) by (bit_vector);
}

/// The machine's word size never exceeds eight bytes.
pub proof fn lemma_usize_fits_u64(x: usize)
    ensures
        x as u64 == x as int,
        x <= u64::MAX,
{
    assert(x as u64 == x as int && x as int <= u64::MAX as int) by (bit_vector);
}

// ---------------------------------------------------------------------
// Spec-level encoders
// ---------------------------------------------------------------------

/// A string fits the length prefix of the format.
pub open spec fn str_fits(p: Seq<char>) -> bool {
    encode_utf8(p).len() <= u64::MAX
}

/// Length-prefixed UTF-8 encoding of a string.
pub open spec fn spec_enc_str(p: Seq<char>) -> Seq<u8> {
    spec_u64_be(encode_utf8(p).len() as u64) + encode_utf8(p)
}

/// The tag byte of a reward kind.
pub open spec fn spec_kind_tag(k: RewardKind) -> u8 {
    match k {
        RewardKind::Staking => 0,
        RewardKind::Voting => 1,
        RewardKind::Other => 2,
    }
}

/// Encoding of one reward record.
pub open spec fn spec_enc_reward(r: RawRewardV) -> Seq<u8> {
    spec_enc_str(r.pubkey) + spec_u64_be(r.lamports as u64) + spec_u64_be(r.post_balance)
        + seq![spec_kind_tag(r.kind)]
}

/// A reward record fits the format.
pub open spec fn reward_fits(r: RawRewardV) -> bool {
    str_fits(r.pubkey)
}

/// Back-to-back encoding of a list of reward records.
pub open spec fn spec_enc_reward_list(rs: Seq<RawRewardV>) -> Seq<u8>
    decreases rs.len(),
{
    if rs.len() == 0 {
        seq![]
    } else {
        spec_enc_reward(rs[0]) + spec_enc_reward_list(rs.drop_first())
    }
}

/// A reward list fits the format.
pub open spec fn rewards_fit(rs: Seq<RawRewardV>) -> bool {
    &&& rs.len() <= u64::MAX
    &&& forall|i: int| 0 <= i < rs.len() ==> reward_fits(#[trigger] rs[i])
}

/// The cache value holding an epoch's reward list.
pub open spec fn spec_enc_rewards_value(rs: Seq<RawRewardV>) -> Seq<u8> {
    spec_u64_be(rs.len() as u64) + spec_enc_reward_list(rs)
}

/// Encoding of one yield-table row.
pub open spec fn spec_enc_apy_entry(e: ApyEntryV) -> Seq<u8> {
    spec_enc_str(e.voter) + spec_u64_be(e.percent_bits)
}

/// A yield-table row fits the format.
pub open spec fn apy_entry_fits(e: ApyEntryV) -> bool {
    str_fits(e.voter)
}

/// Back-to-back encoding of a yield table.
pub open spec fn spec_enc_apy_list(es: Seq<ApyEntryV>) -> Seq<u8>
    decreases es.len(),
{
    if es.len() == 0 {
        seq![]
    } else {
        spec_enc_apy_entry(es[0]) + spec_enc_apy_list(es.drop_first())
    }
}

/// A yield table fits the format.
pub open spec fn apy_table_fits(es: Seq<ApyEntryV>) -> bool {
    &&& es.len() <= u64::MAX
    &&& forall|i: int| 0 <= i < es.len() ==> apy_entry_fits(#[trigger] es[i])
}

/// The cache value holding an epoch's yield table.
pub open spec fn spec_enc_apy_value(es: Seq<ApyEntryV>) -> Seq<u8> {
    spec_u64_be(es.len() as u64) + spec_enc_apy_list(es)
}

// ---------------------------------------------------------------------
// Spec-level decoders
// ---------------------------------------------------------------------

/// Reads an 8-byte big-endian integer at `pos`.
pub open spec fn spec_read_u64(s: Seq<u8>, pos: int) -> Option<(u64, int)> {
    if 0 <= pos && pos + 8 <= s.len() {
        Some((spec_u64_from_be(s.subrange(pos, pos + 8)), pos + 8))
    } else {
        None
    }
}

/// Reads one byte at `pos`.
pub open spec fn spec_read_byte(s: Seq<u8>, pos: int) -> Option<(u8, int)> {
    if 0 <= pos && pos + 1 <= s.len() {
        Some((s[pos], pos + 1))
    } else {
        None
    }
}

/// Reads a length-prefixed UTF-8 string at `pos`.
pub open spec fn spec_read_str(s: Seq<u8>, pos: int) -> Option<(Seq<char>, int)> {
    match spec_read_u64(s, pos) {
        Some((n, p2)) => {
            if p2 + n <= s.len() && valid_utf8(s.subrange(p2, p2 + n)) {
                Some((decode_utf8(s.subrange(p2, p2 + n)), p2 + n))
            } else {
                None
            }
        },
        None => None,
    }
}

/// Reads one reward record at `pos`.
pub open spec fn spec_read_reward(s: Seq<u8>, pos: int) -> Option<(RawRewardV, int)> {
    match spec_read_str(s, pos) {
        Some((pubkey, p2)) => match spec_read_u64(s, p2) {
            Some((lam, p3)) => match spec_read_u64(s, p3) {
                Some((post, p4)) => match spec_read_byte(s, p4) {
                    Some((tag, p5)) => {
                        if tag == 0 || tag == 1 || tag == 2 {
                            let kind = if tag == 0 {
                                RewardKind::Staking
                            } else if tag == 1 {
                                RewardKind::Voting
                            } else {
                                RewardKind::Other
                            };
                            Some(
                                (
                                    RawRewardV {
                                        pubkey,
                                        lamports: lam as i64,
                                        post_balance: post,
                                        kind,
                                    },
                                    p5,
                                ),
                            )
                        } else {
                            None
                        }
                    },
                    None => None,
                },
                None => None,
            },
            None => None,
        },
        None => None,
    }
}

/// Reads `count` reward records back to back, starting at `pos`.
pub open spec fn spec_read_reward_list(s: Seq<u8>, pos: int, count: u64) -> Option<
    (Seq<RawRewardV>, int),
>
    decreases count,
{
    if count == 0 {
        Some((seq![], pos))
    } else {
        match spec_read_reward(s, pos) {
            Some((r, p2)) => match spec_read_reward_list(s, p2, (count - 1) as u64) {
                Some((rest, p3)) => Some((seq![r] + rest, p3)),
                None => None,
            },
            None => None,
        }
    }
}

/// Decodes a whole cache value into a reward list; strict about length.
pub open spec fn spec_dec_rewards_value(s: Seq<u8>) -> Option<Seq<RawRewardV>> {
    match spec_read_u64(s, 0) {
        Some((n, p)) => match spec_read_reward_list(s, p, n) {
            Some((items, p2)) => if p2 == s.len() {
                Some(items)
            } else {
                None
            },
            None => None,
        },
        None => None,
    }
}

/// Reads one yield-table row at `pos`.
pub open spec fn spec_read_apy_entry(s: Seq<u8>, pos: int) -> Option<(ApyEntryV, int)> {
    match spec_read_str(s, pos) {
        Some((voter, p2)) => match spec_read_u64(s, p2) {
            Some((bits, p3)) => Some((ApyEntryV { voter, percent_bits: bits }, p3)),
            None => None,
        },
        None => None,
    }
}

/// Reads `count` yield-table rows back to back, starting at `pos`.
pub open spec fn spec_read_apy_list(s: Seq<u8>, pos: int, count: u64) -> Option<
    (Seq<ApyEntryV>, int),
>
    decreases count,
{
    if count == 0 {
        Some((seq![], pos))
    } else {
        match spec_read_apy_entry(s, pos) {
            Some((e, p2)) => match spec_read_apy_list(s, p2, (count - 1) as u64) {
                Some((rest, p3)) => Some((seq![e] + rest, p3)),
                None => None,
            },
            None => None,
        }
    }
}

/// Decodes a whole cache value into a yield table; strict about length.
pub open spec fn spec_dec_apy_value(s: Seq<u8>) -> Option<Seq<ApyEntryV>> {
    match spec_read_u64(s, 0) {
        Some((n, p)) => match spec_read_apy_list(s, p, n) {
            Some((items, p2)) => if p2 == s.len() {
                Some(items)
            } else {
                None
            },
            None => None,
        },
        None => None,
    }
}

// ---------------------------------------------------------------------
// Round-trip lemmas
// ---------------------------------------------------------------------

/// Reading an integer out of its own encoding, in any context.
proof fn lemma_read_u64_at(v: u64, s: Seq<u8>, pos: int)
    requires
        0 <= pos,
        pos + 8 <= s.len(),
        s.subrange(pos, pos + 8) == spec_u64_be(v),
    ensures
        spec_read_u64(s, pos) == Some((v, pos + 8)),
{
    lemma_u64_be_round_trip(v);
}

/// Reading a string out of its own encoding, in any context.
proof fn lemma_read_str_at(p: Seq<char>, s: Seq<u8>, pos: int)
    requires
        str_fits(p),
        0 <= pos,
        pos + spec_enc_str(p).len() <= s.len(),
        s.subrange(pos, pos + spec_enc_str(p).len()) == spec_enc_str(p),
    ensures
        spec_read_str(s, pos) == Some((p, pos + spec_enc_str(p).len())),
{
    let bytes = encode_utf8(p);
    let n = bytes.len() as int;
    let enc = spec_enc_str(p);
    assert(enc.len() == 8 + n);
    assert(s.subrange(pos, pos + 8) =~= spec_u64_be(n as u64)) by {
        assert(forall|i: int| 0 <= i < 8 ==> #[trigger] s.subrange(pos, pos + 8)[i] == enc[i]);
    }
    lemma_read_u64_at(n as u64, s, pos);
    assert(n as u64 as int == n);
    assert(s.subrange(pos + 8, pos + 8 + n) =~= bytes) by {
        assert(forall|i: int| 0 <= i < n ==> #[trigger] s.subrange(pos + 8, pos + 8 + n)[i] == enc[8 + i]);
    }
    encode_utf8_valid_utf8(p);
    encode_utf8_decode_utf8(p);
}

/// Reading a reward record out of its own encoding, in any context.
proof fn lemma_read_reward_at(r: RawRewardV, s: Seq<u8>, pos: int)
    requires
        reward_fits(r),
        0 <= pos,
        pos + spec_enc_reward(r).len() <= s.len(),
        s.subrange(pos, pos + spec_enc_reward(r).len()) == spec_enc_reward(r),
    ensures
        spec_read_reward(s, pos) == Some((r, pos + spec_enc_reward(r).len())),
{
    let enc = spec_enc_reward(r);
    let e1 = spec_enc_str(r.pubkey);
    let l1 = e1.len() as int;
    assert(enc.len() == l1 + 17);
    assert(s.subrange(pos, pos + l1) =~= e1) by {
        assert(forall|i: int| 0 <= i < l1 ==> #[trigger] s.subrange(pos, pos + l1)[i] == enc[i]);
    }
    lemma_read_str_at(r.pubkey, s, pos);
    let p2 = pos + l1;
    assert(s.subrange(p2, p2 + 8) =~= spec_u64_be(r.lamports as u64)) by {
        assert(forall|i: int| 0 <= i < 8 ==> #[trigger] s.subrange(p2, p2 + 8)[i] == enc[l1 + i]);
    }
    lemma_read_u64_at(r.lamports as u64, s, p2);
    lemma_i64_u64_round_trip(r.lamports);
    let p3 = p2 + 8;
    assert(s.subrange(p3, p3 + 8) =~= spec_u64_be(r.post_balance)) by {
        assert(forall|i: int| 0 <= i < 8 ==> #[trigger] s.subrange(p3, p3 + 8)[i] == enc[l1 + 8 + i]);
    }
    lemma_read_u64_at(r.post_balance, s, p3);
    let p4 = p3 + 8;
    assert(s[p4] == enc[l1 + 16]);
    assert(enc[l1 + 16] == spec_kind_tag(r.kind));
}

/// Reading a reward list out of its own encoding, in any context.
proof fn lemma_read_reward_list_at(rs: Seq<RawRewardV>, s: Seq<u8>, pos: int)
    requires
        rewards_fit(rs),
        0 <= pos,
        pos + spec_enc_reward_list(rs).len() <= s.len(),
        s.subrange(pos, pos + spec_enc_reward_list(rs).len()) == spec_enc_reward_list(rs),
    ensures
        spec_read_reward_list(s, pos, rs.len() as u64) == Some(
            (rs, pos + spec_enc_reward_list(rs).len()),
        ),
    decreases rs.len(),
{
    let enc = spec_enc_reward_list(rs);
    if rs.len() == 0 {
        assert(rs =~= Seq::<RawRewardV>::empty());
    } else {
        let e0 = spec_enc_reward(rs[0]);
        let rest = rs.drop_first();
        let er = spec_enc_reward_list(rest);
        assert(enc == e0 + er);
        assert(s.subrange(pos, pos + e0.len()) =~= e0) by {
            assert(forall|i: int|
                0 <= i < e0.len() ==> #[trigger] s.subrange(pos, pos + e0.len() as int)[i] == enc[i]);
        }
        lemma_read_reward_at(rs[0], s, pos);
        let p2 = pos + e0.len() as int;
        assert(s.subrange(p2, p2 + er.len()) =~= er) by {
            assert(forall|i: int|
                0 <= i < er.len() ==> #[trigger] s.subrange(p2, p2 + er.len() as int)[i] == enc[e0.len()
                    + i]);
        }
        assert(rewards_fit(rest)) by {
            assert(forall|i: int| 0 <= i < rest.len() ==> rest[i] == rs[i + 1]);
        }
        lemma_read_reward_list_at(rest, s, p2);
        assert((rs.len() as u64 - 1) as u64 == rest.len() as u64);
        assert(seq![rs[0]] + rest =~= rs);
    }
}

/// Decoding inverts encoding for an epoch's reward list.
pub proof fn lemma_rewards_value_round_trip(rs: Seq<RawRewardV>)
    requires
        rewards_fit(rs),
    ensures
        spec_dec_rewards_value(spec_enc_rewards_value(rs)) == Some(rs),
{
    let s = spec_enc_rewards_value(rs);
    let lenc = spec_enc_reward_list(rs);
    assert(s.subrange(0, 8) =~= spec_u64_be(rs.len() as u64));
    lemma_read_u64_at(rs.len() as u64, s, 0);
    assert(s.subrange(8, 8 + lenc.len() as int) =~= lenc);
    lemma_read_reward_list_at(rs, s, 8);
    assert(rs.len() as u64 == rs.len());
}

/// Reading a yield-table row out of its own encoding, in any context.
proof fn lemma_read_apy_entry_at(e: ApyEntryV, s: Seq<u8>, pos: int)
    requires
        apy_entry_fits(e),
        0 <= pos,
        pos + spec_enc_apy_entry(e).len() <= s.len(),
        s.subrange(pos, pos + spec_enc_apy_entry(e).len()) == spec_enc_apy_entry(e),
    ensures
        spec_read_apy_entry(s, pos) == Some((e, pos + spec_enc_apy_entry(e).len())),
{
    let enc = spec_enc_apy_entry(e);
    let e1 = spec_enc_str(e.voter);
    let l1 = e1.len() as int;
    assert(enc.len() == l1 + 8);
    assert(s.subrange(pos, pos + l1) =~= e1) by {
        assert(forall|i: int| 0 <= i < l1 ==> #[trigger] s.subrange(pos, pos + l1)[i] == enc[i]);
    }
    lemma_read_str_at(e.voter, s, pos);
    let p2 = pos + l1;
    assert(s.subrange(p2, p2 + 8) =~= spec_u64_be(e.percent_bits)) by {
        assert(forall|i: int| 0 <= i < 8 ==> #[trigger] s.subrange(p2, p2 + 8)[i] == enc[l1 + i]);
    }
    lemma_read_u64_at(e.percent_bits, s, p2);
}

/// Reading a yield table out of its own encoding, in any context.
proof fn lemma_read_apy_list_at(es: Seq<ApyEntryV>, s: Seq<u8>, pos: int)
    requires
        apy_table_fits(es),
        0 <= pos,
        pos + spec_enc_apy_list(es).len() <= s.len(),
        s.subrange(pos, pos + spec_enc_apy_list(es).len()) == spec_enc_apy_list(es),
    ensures
        spec_read_apy_list(s, pos, es.len() as u64) == Some(
            (es, pos + spec_enc_apy_list(es).len()),
        ),
    decreases es.len(),
{
    let enc = spec_enc_apy_list(es);
    if es.len() == 0 {
        assert(es =~= Seq::<ApyEntryV>::empty());
    } else {
        let e0 = spec_enc_apy_entry(es[0]);
        let rest = es.drop_first();
        let er = spec_enc_apy_list(rest);
        assert(enc == e0 + er);
        assert(s.subrange(pos, pos + e0.len()) =~= e0) by {
            assert(forall|i: int|
                0 <= i < e0.len() ==> #[trigger] s.subrange(pos, pos + e0.len() as int)[i] == enc[i]);
        }
        lemma_read_apy_entry_at(es[0], s, pos);
        let p2 = pos + e0.len() as int;
        assert(s.subrange(p2, p2 + er.len()) =~= er) by {
            assert(forall|i: int|
                0 <= i < er.len() ==> #[trigger] s.subrange(p2, p2 + er.len() as int)[i] == enc[e0.len()
                    + i]);
        }
        assert(apy_table_fits(rest)) by {
            assert(forall|i: int| 0 <= i < rest.len() ==> rest[i] == es[i + 1]);
        }
        lemma_read_apy_list_at(rest, s, p2);
        assert(seq![es[0]] + rest =~= es);
    }
}

/// Decoding inverts encoding for an epoch's yield table.
pub proof fn lemma_apy_value_round_trip(es: Seq<ApyEntryV>)
    requires
        apy_table_fits(es),
    ensures
        spec_dec_apy_value(spec_enc_apy_value(es)) == Some(es),
{
    let s = spec_enc_apy_value(es);
    let lenc = spec_enc_apy_list(es);
    assert(s.subrange(0, 8) =~= spec_u64_be(es.len() as u64));
    lemma_read_u64_at(es.len() as u64, s, 0);
    assert(s.subrange(8, 8 + lenc.len() as int) =~= lenc);
    lemma_read_apy_list_at(es, s, 8);
}


// ---------------------------------------------------------------------
// Encoder helper lemmas
// ---------------------------------------------------------------------

/// Appending one record extends the list encoding at its end.
proof fn lemma_enc_reward_list_push(rs: Seq<RawRewardV>, r: RawRewardV)
    ensures
        spec_enc_reward_list(rs.push(r)) == spec_enc_reward_list(rs) + spec_enc_reward(r),
    decreases rs.len(),
{
    if rs.len() == 0 {
        assert(rs.push(r).drop_first() =~= Seq::<RawRewardV>::empty());
        assert(rs.push(r)[0] == r);
        assert(spec_enc_reward_list(rs.push(r).drop_first()) == Seq::<u8>::empty());
        assert(spec_enc_reward_list(rs.push(r)) =~= spec_enc_reward(r));
        assert(spec_enc_reward_list(rs) + spec_enc_reward(r) =~= spec_enc_reward(r));
    } else {
        assert(rs.push(r).drop_first() =~= rs.drop_first().push(r));
        lemma_enc_reward_list_push(rs.drop_first(), r);
        assert(spec_enc_reward(rs[0]) + (spec_enc_reward_list(rs.drop_first())
            + spec_enc_reward(r)) =~= (spec_enc_reward(rs[0]) + spec_enc_reward_list(
            rs.drop_first(),
        )) + spec_enc_reward(r));
    }
}

/// Appending one row extends the table encoding at its end.
proof fn lemma_enc_apy_list_push(es: Seq<ApyEntryV>, e: ApyEntryV)
    ensures
        spec_enc_apy_list(es.push(e)) == spec_enc_apy_list(es) + spec_enc_apy_entry(e),
    decreases es.len(),
{
    if es.len() == 0 {
        assert(es.push(e).drop_first() =~= Seq::<ApyEntryV>::empty());
        assert(es.push(e)[0] == e);
        assert(spec_enc_apy_list(es.push(e).drop_first()) == Seq::<u8>::empty());
        assert(spec_enc_apy_list(es.push(e)) =~= spec_enc_apy_entry(e));
        assert(spec_enc_apy_list(es) + spec_enc_apy_entry(e) =~= spec_enc_apy_entry(e));
    } else {
        assert(es.push(e).drop_first() =~= es.drop_first().push(e));
        lemma_enc_apy_list_push(es.drop_first(), e);
        assert(spec_enc_apy_entry(es[0]) + (spec_enc_apy_list(es.drop_first())
            + spec_enc_apy_entry(e)) =~= (spec_enc_apy_entry(es[0]) + spec_enc_apy_list(
            es.drop_first(),
        )) + spec_enc_apy_entry(e));
    }
}

// ---------------------------------------------------------------------
// Executable encoders
// ---------------------------------------------------------------------

/// Appends the 8-byte big-endian encoding of `v`.
fn push_u64_be(out: &mut Vec<u8>, v: u64)
    ensures
        final(out)@ == old(out)@ + spec_u64_be(v),
{
    out.push((v >> 56) as u8);
    out.push((v >> 48) as u8);
    out.push((v >> 40) as u8);
    out.push((v >> 32) as u8);
    out.push((v >> 24) as u8);
    out.push((v >> 16) as u8);
    out.push((v >> 8) as u8);
    out.push(v as u8);
    proof {
        assert(out@ =~= old(out)@ + spec_u64_be(v));
    }
}

/// Appends the length-prefixed UTF-8 encoding of `s`.
fn push_str(out: &mut Vec<u8>, s: &String)
    ensures
        final(out)@ == old(out)@ + spec_enc_str(s@),
        str_fits(s@),
{
    let bytes: &[u8] = s.as_str().as_bytes();
    let len: usize = bytes.len();
    proof {
        lemma_usize_fits_u64(len);
    }
    push_u64_be(out, len as u64);
    let ghost mid = out@;
    let mut i: usize = 0;
    while i < len
        invariant
            len == bytes@.len(),
            0 <= i <= len,
            out@ == mid + bytes@.subrange(0, i as int),
        decreases len - i,
    {
        out.push(bytes[i]);
        proof {
            assert(out@ =~= mid + bytes@.subrange(0, i + 1 as int));
        }
        i = i + 1;
    }
    proof {
        assert(bytes@.subrange(0, len as int) =~= bytes@);
        assert(out@ =~= old(out)@ + spec_enc_str(s@));
    }
}

/// The tag byte of a reward kind.
fn kind_tag(k: RewardKind) -> (r: u8)
    ensures
        r == spec_kind_tag(k),
{
    match k {
        RewardKind::Staking => 0,
        RewardKind::Voting => 1,
        RewardKind::Other => 2,
    }
}

/// Appends the encoding of one reward record.
fn push_reward(out: &mut Vec<u8>, r: &RawReward)
    ensures
        final(out)@ == old(out)@ + spec_enc_reward(r@),
        reward_fits(r@),
{
    push_str(out, &r.pubkey);
    push_u64_be(out, r.lamports as u64);
    push_u64_be(out, r.post_balance);
    out.push(kind_tag(r.kind));
    proof {
        assert(out@ =~= old(out)@ + spec_enc_reward(r@));
    }
}

/// Encodes an epoch's reward list into its cache value.
pub fn encode_rewards(rs: &Vec<RawReward>) -> (r: Vec<u8>)
    ensures
        r@ == spec_enc_rewards_value(reward_views(rs@)),
        rewards_fit(reward_views(rs@)),
        spec_dec_rewards_value(r@) == Some(reward_views(rs@)),
{
    let n: usize = rs.len();
    proof {
        lemma_usize_fits_u64(n);
    }
    let mut out: Vec<u8> = Vec::new();
    push_u64_be(&mut out, n as u64);
    let ghost head = out@;
    let mut i: usize = 0;
    while i < n
        invariant
            n == rs@.len(),
            0 <= i <= n,
            out@ == head + spec_enc_reward_list(reward_views(rs@.take(i as int))),
            forall|j: int| 0 <= j < i ==> reward_fits(#[trigger] reward_views(rs@)[j]),
        decreases n - i,
    {
        let ghost before = reward_views(rs@.take(i as int));
        push_reward(&mut out, &rs[i]);
        proof {
            lemma_enc_reward_list_push(before, rs@[i as int]@);
            assert(rs@.take(i + 1 as int) =~= rs@.take(i as int).push(rs@[i as int]));
            assert(reward_views(rs@.take(i + 1 as int)) =~= before.push(rs@[i as int]@));
            assert(reward_views(rs@)[i as int] == rs@[i as int]@);
        }
        i = i + 1;
    }
    proof {
        assert(rs@.take(n as int) =~= rs@);
        assert(reward_views(rs@).len() == rs@.len());
        assert(out@ =~= spec_enc_rewards_value(reward_views(rs@)));
        lemma_rewards_value_round_trip(reward_views(rs@));
    }
    out
}

/// Appends the encoding of one yield-table row.
fn push_apy_entry(out: &mut Vec<u8>, e: &ApyEntry)
    ensures
        final(out)@ == old(out)@ + spec_enc_apy_entry(e@),
        apy_entry_fits(e@),
{
    push_str(out, &e.voter);
    push_u64_be(out, e.percent_bits);
    proof {
        assert(out@ =~= old(out)@ + spec_enc_apy_entry(e@));
    }
}

/// Encodes an epoch's yield table into its cache value.
pub fn encode_apy_table(es: &Vec<ApyEntry>) -> (r: Vec<u8>)
    ensures
        r@ == spec_enc_apy_value(apy_views(es@)),
        apy_table_fits(apy_views(es@)),
        spec_dec_apy_value(r@) == Some(apy_views(es@)),
{
    let n: usize = es.len();
    proof {
        lemma_usize_fits_u64(n);
    }
    let mut out: Vec<u8> = Vec::new();
    push_u64_be(&mut out, n as u64);
    let ghost head = out@;
    let mut i: usize = 0;
    while i < n
        invariant
            n == es@.len(),
            0 <= i <= n,
            out@ == head + spec_enc_apy_list(apy_views(es@.take(i as int))),
            forall|j: int| 0 <= j < i ==> apy_entry_fits(#[trigger] apy_views(es@)[j]),
        decreases n - i,
    {
        let ghost before = apy_views(es@.take(i as int));
        push_apy_entry(&mut out, &es[i]);
        proof {
            lemma_enc_apy_list_push(before, es@[i as int]@);
            assert(es@.take(i + 1 as int) =~= es@.take(i as int).push(es@[i as int]));
            assert(apy_views(es@.take(i + 1 as int)) =~= before.push(es@[i as int]@));
            assert(apy_views(es@)[i as int] == es@[i as int]@);
        }
        i = i + 1;
    }
    proof {
        assert(es@.take(n as int) =~= es@);
        assert(out@ =~= spec_enc_apy_value(apy_views(es@)));
        lemma_apy_value_round_trip(apy_views(es@));
    }
    out
}

// ---------------------------------------------------------------------
// Executable decoders
// ---------------------------------------------------------------------

/// Relies on String::from_utf8: it succeeds exactly on valid UTF-8 and
/// returns the string holding those bytes.
#[verifier::external_body]
fn string_from_utf8(bytes: Vec<u8>) -> (r: Option<String>)
    ensures
        match r {
            Some(s) => valid_utf8(bytes@) && s@ == decode_utf8(bytes@),
            None => !valid_utf8(bytes@),
        },
{
    String::from_utf8(bytes).ok()
}

/// Reads an 8-byte big-endian integer at `pos`.
fn read_u64_be(b: &Vec<u8>, pos: usize) -> (r: Option<(u64, usize)>)
    ensures
        (r matches Some(t) ==> spec_read_u64(b@, pos as int) == Some((t.0, t.1 as int))
            && t.1 <= b@.len()),
        r is None ==> spec_read_u64(b@, pos as int) is None,
{
    if b.len() < 8 || pos > b.len() - 8 {
        return None;
    }
    let v: u64 = ((b[pos] as u64) << 56) | ((b[pos + 1] as u64) << 48) | ((b[pos + 2] as u64)
        << 40) | ((b[pos + 3] as u64) << 32) | ((b[pos + 4] as u64) << 24) | ((b[pos + 5] as u64)
        << 16) | ((b[pos + 6] as u64) << 8) | (b[pos + 7] as u64);
    proof {
        let s = b@.subrange(pos as int, pos + 8 as int);
        assert(s[0] == b@[pos as int]);
        assert(s[1] == b@[pos + 1 as int]);
        assert(s[2] == b@[pos + 2 as int]);
        assert(s[3] == b@[pos + 3 as int]);
        assert(s[4] == b@[pos + 4 as int]);
        assert(s[5] == b@[pos + 5 as int]);
        assert(s[6] == b@[pos + 6 as int]);
        assert(s[7] == b@[pos + 7 as int]);
    }
    Some((v, pos + 8))
}

/// Reads a length-prefixed UTF-8 string at `pos`.
fn read_str(b: &Vec<u8>, pos: usize) -> (r: Option<(String, usize)>)
    ensures
        (r matches Some(t) ==> spec_read_str(b@, pos as int) == Some((t.0@, t.1 as int))
            && t.1 <= b@.len()),
        r is None ==> spec_read_str(b@, pos as int) is None,
{
    match read_u64_be(b, pos) {
        None => None,
        Some((n, p2)) => {
            let rem: usize = b.len() - p2;
            proof {
                lemma_usize_fits_u64(rem);
            }
            if n > rem as u64 {
                return None;
            }
            let blen: usize = b.len();
            let mut bytes: Vec<u8> = Vec::new();
            let mut p: usize = p2;
            let mut k: u64 = 0;
            while k < n
                invariant
                    blen == b@.len(),
                    p2 + n <= b@.len(),
                    p == p2 + k,
                    0 <= k <= n,
                    bytes@ == b@.subrange(p2 as int, p2 + k as int),
                decreases n - k,
            {
                bytes.push(b[p]);
                proof {
                    assert(bytes@ =~= b@.subrange(p2 as int, p2 + (k + 1) as int));
                }
                p = p + 1;
                k = k + 1;
            }
            match string_from_utf8(bytes) {
                Some(s) => Some((s, p)),
                None => None,
            }
        },
    }
}

/// Reads one reward record at `pos`.
fn read_reward(b: &Vec<u8>, pos: usize) -> (r: Option<(RawReward, usize)>)
    ensures
        (r matches Some(t) ==> spec_read_reward(b@, pos as int) == Some((t.0@, t.1 as int))
            && t.1 <= b@.len()),
        r is None ==> spec_read_reward(b@, pos as int) is None,
{
    match read_str(b, pos) {
        None => None,
        Some((pubkey, p2)) => match read_u64_be(b, p2) {
            None => None,
            Some((lam, p3)) => match read_u64_be(b, p3) {
                None => None,
                Some((post, p4)) => {
                    if p4 >= b.len() {
                        return None;
                    }
                    let tag: u8 = b[p4];
                    let kind: RewardKind = if tag == 0 {
                        RewardKind::Staking
                    } else if tag == 1 {
                        RewardKind::Voting
                    } else if tag == 2 {
                        RewardKind::Other
                    } else {
                        return None;
                    };
                    Some(
                        (
                            RawReward {
                                pubkey,
                                lamports: lam as i64,
                                post_balance: post,
                                kind,
                            },
                            p4 + 1,
                        ),
                    )
                },
            },
        },
    }
}

/// Decodes an epoch's reward-list cache value; strict about length.
pub fn decode_rewards(b: &Vec<u8>) -> (r: Option<Vec<RawReward>>)
    ensures
        (r matches Some(v) ==> spec_dec_rewards_value(b@) == Some(reward_views(v@))),
        r is None ==> spec_dec_rewards_value(b@) is None,
{
    match read_u64_be(b, 0) {
        None => None,
        Some((n, p0)) => {
            let mut out: Vec<RawReward> = Vec::new();
            let mut pos: usize = p0;
            let mut k: u64 = 0;
            while k < n
                invariant
                    0 <= k <= n,
                    pos <= b@.len(),
                    spec_read_u64(b@, 0) == Some((n, p0 as int)),
                    spec_read_reward_list(b@, p0 as int, n) is Some <==> spec_read_reward_list(
                        b@,
                        pos as int,
                        (n - k) as u64,
                    ) is Some,
                    spec_read_reward_list(b@, pos as int, (n - k) as u64) matches Some(t)
                        ==> spec_read_reward_list(b@, p0 as int, n) == Some(
                        ((reward_views(out@) + t.0), t.1),
                    ),
                decreases n - k,
            {
                let ghost m = (n - k) as u64;
                match read_reward(b, pos) {
                    None => {
                        proof {
                            assert(spec_read_reward_list(b@, pos as int, m) is None);
                            assert(spec_read_reward_list(b@, p0 as int, n) is None);
                            assert(spec_dec_rewards_value(b@) is None);
                        }
                        return None;
                    },
                    Some((rw, p2)) => {
                        let ghost old_out = out@;
                        out.push(rw);
                        proof {
                            assert(spec_read_reward_list(b@, pos as int, m) == match
                                spec_read_reward_list(b@, p2 as int, (m - 1) as u64) {
                                Some((rest, pe)) => Some((seq![rw@] + rest, pe)),
                                None => None::<(Seq<RawRewardV>, int)>,
                            });
                            assert(reward_views(out@) =~= reward_views(old_out) + seq![rw@]);
                            if spec_read_reward_list(b@, p2 as int, (m - 1) as u64) is Some {
                                let t = spec_read_reward_list(b@, p2 as int, (m - 1) as u64)
                                    .unwrap();
                                assert((reward_views(old_out) + (seq![rw@] + t.0)) =~= (
                                reward_views(out@) + t.0));
                            }
                        }
                        pos = p2;
                        k = k + 1;
                    },
                }
            }
            proof {
                assert(spec_read_reward_list(b@, pos as int, 0) == Some(
                    (Seq::<RawRewardV>::empty(), pos as int),
                ));
                assert(reward_views(out@) + Seq::<RawRewardV>::empty() =~= reward_views(out@));
                assert(spec_read_reward_list(b@, p0 as int, n) == Some(
                    (reward_views(out@), pos as int),
                ));
            }
            if pos != b.len() {
                proof {
                    assert(spec_dec_rewards_value(b@) is None);
                }
                return None;
            }
            proof {
                assert(spec_dec_rewards_value(b@) == Some(reward_views(out@)));
            }
            Some(out)
        },
    }
}

/// Reads one yield-table row at `pos`.
fn read_apy_entry(b: &Vec<u8>, pos: usize) -> (r: Option<(ApyEntry, usize)>)
    ensures
        (r matches Some(t) ==> spec_read_apy_entry(b@, pos as int) == Some((t.0@, t.1 as int))
            && t.1 <= b@.len()),
        r is None ==> spec_read_apy_entry(b@, pos as int) is None,
{
    match read_str(b, pos) {
        None => None,
        Some((voter, p2)) => match read_u64_be(b, p2) {
            None => None,
            Some((bits, p3)) => Some((ApyEntry { voter, percent_bits: bits }, p3)),
        },
    }
}

/// Decodes an epoch's yield-table cache value; strict about length.
pub fn decode_apy_table(b: &Vec<u8>) -> (r: Option<Vec<ApyEntry>>)
    ensures
        (r matches Some(v) ==> spec_dec_apy_value(b@) == Some(apy_views(v@))),
        r is None ==> spec_dec_apy_value(b@) is None,
{
    match read_u64_be(b, 0) {
        None => None,
        Some((n, p0)) => {
            let mut out: Vec<ApyEntry> = Vec::new();
            let mut pos: usize = p0;
            let mut k: u64 = 0;
            while k < n
                invariant
                    0 <= k <= n,
                    pos <= b@.len(),
                    spec_read_u64(b@, 0) == Some((n, p0 as int)),
                    spec_read_apy_list(b@, p0 as int, n) is Some <==> spec_read_apy_list(
                        b@,
                        pos as int,
                        (n - k) as u64,
                    ) is Some,
                    spec_read_apy_list(b@, pos as int, (n - k) as u64) matches Some(t)
                        ==> spec_read_apy_list(b@, p0 as int, n) == Some(
                        ((apy_views(out@) + t.0), t.1),
                    ),
                decreases n - k,
            {
                let ghost m = (n - k) as u64;
                match read_apy_entry(b, pos) {
                    None => {
                        proof {
                            assert(spec_read_apy_list(b@, pos as int, m) is None);
                            assert(spec_read_apy_list(b@, p0 as int, n) is None);
                            assert(spec_dec_apy_value(b@) is None);
                        }
                        return None;
                    },
                    Some((e, p2)) => {
                        let ghost old_out = out@;
                        out.push(e);
                        proof {
                            assert(spec_read_apy_list(b@, pos as int, m) == match
                                spec_read_apy_list(b@, p2 as int, (m - 1) as u64) {
                                Some((rest, pe)) => Some((seq![e@] + rest, pe)),
                                None => None::<(Seq<ApyEntryV>, int)>,
                            });
                            assert(apy_views(out@) =~= apy_views(old_out) + seq![e@]);
                            if spec_read_apy_list(b@, p2 as int, (m - 1) as u64) is Some {
                                let t = spec_read_apy_list(b@, p2 as int, (m - 1) as u64).unwrap();
                                assert((apy_views(old_out) + (seq![e@] + t.0)) =~= (apy_views(out@)
                                    + t.0));
                            }
                        }
                        pos = p2;
                        k = k + 1;
                    },
                }
            }
            proof {
                assert(spec_read_apy_list(b@, pos as int, 0) == Some(
                    (Seq::<ApyEntryV>::empty(), pos as int),
                ));
                assert(apy_views(out@) + Seq::<ApyEntryV>::empty() =~= apy_views(out@));
                assert(spec_read_apy_list(b@, p0 as int, n) == Some(
                    (apy_views(out@), pos as int),
                ));
            }
            if pos != b.len() {
                proof {
                    assert(spec_dec_apy_value(b@) is None);
                }
                return None;
            }
            proof {
                assert(spec_dec_apy_value(b@) == Some(apy_views(out@)));
            }
            Some(out)
        },
    }
}


} // verus!
