//! Mathematical model of the engine's aggregates: sums over unlocking
//! queues and stake records, the vote relation as a map, and the
//! arithmetic facts the reward split rests on.

use vstd::prelude::*;
use crate::types::{AccountId, Balance, EraIndex, StakeRecord, UnlockChunk, Vote, VoteRecord};

verus! {

/// The smaller of two amounts.
pub open spec fn min_bal(a: Balance, b: Balance) -> Balance {
    if a <= b {
        a
    } else {
        b
    }
}

// ---------------------------------------------------------------------
// Sums over unlocking chunks.
// ---------------------------------------------------------------------

/// Sum of the values of all chunks.
pub open spec fn sum_chunks(s: Seq<UnlockChunk>) -> int
    decreases s.len(),
{
    if s.len() == 0 {
        0
    } else {
        sum_chunks(s.drop_last()) + s.last().value
    }
}

pub proof fn lemma_sum_chunks_nonneg(s: Seq<UnlockChunk>)
    ensures
        sum_chunks(s) >= 0,
    decreases s.len(),
{
    if s.len() > 0 {
        lemma_sum_chunks_nonneg(s.drop_last());
    }
}

pub proof fn lemma_sum_chunks_push(s: Seq<UnlockChunk>, c: UnlockChunk)
    ensures
        sum_chunks(s.push(c)) == sum_chunks(s) + c.value,
{
    assert(s.push(c).drop_last() =~= s);
}

pub proof fn lemma_sum_chunks_take_step(s: Seq<UnlockChunk>, i: int)
    requires
        0 <= i < s.len(),
    ensures
        sum_chunks(s.take(i + 1)) == sum_chunks(s.take(i)) + s[i].value,
{
    assert(s.take(i + 1).drop_last() =~= s.take(i));
    assert(s.take(i + 1).last() == s[i]);
}

pub proof fn lemma_sum_chunks_take_le(s: Seq<UnlockChunk>, i: int)
    requires
        0 <= i <= s.len(),
    ensures
        sum_chunks(s.take(i)) <= sum_chunks(s),
    decreases s.len() - i,
{
    if i == s.len() {
        assert(s.take(i) =~= s);
    } else {
        lemma_sum_chunks_take_step(s, i);
        lemma_sum_chunks_take_le(s, i + 1);
    }
}

pub proof fn lemma_sum_chunks_take_all(s: Seq<UnlockChunk>)
    ensures
        sum_chunks(s.take(s.len() as int)) == sum_chunks(s),
{
    assert(s.take(s.len() as int) =~= s);
}

/// Chunks that stay in the queue at `era`: those not yet due.
pub open spec fn kept_chunks(s: Seq<UnlockChunk>, era: EraIndex) -> Seq<UnlockChunk>
    decreases s.len(),
{
    if s.len() == 0 {
        Seq::empty()
    } else if s.last().era > era {
        kept_chunks(s.drop_last(), era).push(s.last())
    } else {
        kept_chunks(s.drop_last(), era)
    }
}

/// Sum of the values of the chunks due at `era`.
pub open spec fn due_sum(s: Seq<UnlockChunk>, era: EraIndex) -> int
    decreases s.len(),
{
    if s.len() == 0 {
        0
    } else if s.last().era <= era {
        due_sum(s.drop_last(), era) + s.last().value
    } else {
        due_sum(s.drop_last(), era)
    }
}

pub proof fn lemma_withdraw_take_step(s: Seq<UnlockChunk>, era: EraIndex, i: int)
    requires
        0 <= i < s.len(),
    ensures
        s[i].era > era ==> kept_chunks(s.take(i + 1), era)
            == kept_chunks(s.take(i), era).push(s[i]),
        s[i].era > era ==> due_sum(s.take(i + 1), era) == due_sum(s.take(i), era),
        s[i].era <= era ==> kept_chunks(s.take(i + 1), era) == kept_chunks(s.take(i), era),
        s[i].era <= era ==> due_sum(s.take(i + 1), era)
            == due_sum(s.take(i), era) + s[i].value,
{
    assert(s.take(i + 1).drop_last() =~= s.take(i));
    assert(s.take(i + 1).last() == s[i]);
}

pub proof fn lemma_withdraw_take_all(s: Seq<UnlockChunk>, era: EraIndex)
    ensures
        kept_chunks(s.take(s.len() as int), era) == kept_chunks(s, era),
        due_sum(s.take(s.len() as int), era) == due_sum(s, era),
{
    assert(s.take(s.len() as int) =~= s);
}

// ---------------------------------------------------------------------
// Sums over stake records.
// ---------------------------------------------------------------------

/// Sum of the amounts of all stake records.
pub open spec fn sum_amounts(s: Seq<StakeRecord>) -> int
    decreases s.len(),
{
    if s.len() == 0 {
        0
    } else {
        sum_amounts(s.drop_last()) + s.last().amount
    }
}

/// Sum of the amounts of the records set by `controller`.
pub open spec fn controller_sum(s: Seq<StakeRecord>, controller: AccountId) -> int
    decreases s.len(),
{
    if s.len() == 0 {
        0
    } else if s.last().controller == controller {
        controller_sum(s.drop_last(), controller) + s.last().amount
    } else {
        controller_sum(s.drop_last(), controller)
    }
}

/// The records not set by `controller`, in their original order.
pub open spec fn other_stakes(s: Seq<StakeRecord>, controller: AccountId) -> Seq<StakeRecord>
    decreases s.len(),
{
    if s.len() == 0 {
        Seq::empty()
    } else if s.last().controller == controller {
        other_stakes(s.drop_last(), controller)
    } else {
        other_stakes(s.drop_last(), controller).push(s.last())
    }
}

pub proof fn lemma_sum_amounts_nonneg(s: Seq<StakeRecord>)
    ensures
        sum_amounts(s) >= 0,
    decreases s.len(),
{
    if s.len() > 0 {
        lemma_sum_amounts_nonneg(s.drop_last());
    }
}

pub proof fn lemma_sum_amounts_push(s: Seq<StakeRecord>, r: StakeRecord)
    ensures
        sum_amounts(s.push(r)) == sum_amounts(s) + r.amount,
{
    assert(s.push(r).drop_last() =~= s);
}

pub proof fn lemma_stakes_take_step(s: Seq<StakeRecord>, controller: AccountId, i: int)
    requires
        0 <= i < s.len(),
    ensures
        sum_amounts(s.take(i + 1)) == sum_amounts(s.take(i)) + s[i].amount,
        s[i].controller == controller ==> controller_sum(s.take(i + 1), controller)
            == controller_sum(s.take(i), controller) + s[i].amount,
        s[i].controller == controller ==> other_stakes(s.take(i + 1), controller)
            == other_stakes(s.take(i), controller),
        s[i].controller != controller ==> controller_sum(s.take(i + 1), controller)
            == controller_sum(s.take(i), controller),
        s[i].controller != controller ==> other_stakes(s.take(i + 1), controller)
            == other_stakes(s.take(i), controller).push(s[i]),
{
    assert(s.take(i + 1).drop_last() =~= s.take(i));
    assert(s.take(i + 1).last() == s[i]);
}

pub proof fn lemma_stakes_take_all(s: Seq<StakeRecord>, controller: AccountId)
    ensures
        sum_amounts(s.take(s.len() as int)) == sum_amounts(s),
        controller_sum(s.take(s.len() as int), controller)
            == controller_sum(s, controller),
        other_stakes(s.take(s.len() as int), controller) == other_stakes(s, controller),
{
    assert(s.take(s.len() as int) =~= s);
}

pub proof fn lemma_sum_amounts_take_le(s: Seq<StakeRecord>, i: int)
    requires
        0 <= i <= s.len(),
    ensures
        sum_amounts(s.take(i)) <= sum_amounts(s),
    decreases s.len() - i,
{
    if i == s.len() {
        assert(s.take(i) =~= s);
    } else {
        lemma_stakes_take_step(s, s[i].controller, i);
        lemma_sum_amounts_take_le(s, i + 1);
    }
}

/// No single record exceeds the sum of all amounts.
pub proof fn lemma_element_le_sum(s: Seq<StakeRecord>, k: int)
    requires
        0 <= k < s.len(),
    ensures
        s[k].amount <= sum_amounts(s),
    decreases s.len(),
{
    if k == s.len() - 1 {
        lemma_sum_amounts_nonneg(s.drop_last());
    } else {
        lemma_element_le_sum(s.drop_last(), k);
        assert(s.drop_last()[k] == s[k]);
    }
}

/// Removing one controller's records keeps the rest unique, free of
/// that controller, and drawn from the original records.
pub proof fn lemma_other_stakes_unique(s: Seq<StakeRecord>, controller: AccountId)
    requires
        unique_stake_pairs(s),
    ensures
        unique_stake_pairs(other_stakes(s, controller)),
        forall|k: int| 0 <= k < other_stakes(s, controller).len()
            ==> (#[trigger] other_stakes(s, controller)[k]).controller != controller,
        forall|k: int| 0 <= k < other_stakes(s, controller).len()
            ==> s.contains(#[trigger] other_stakes(s, controller)[k]),
    decreases s.len(),
{
    if s.len() > 0 {
        let dl = s.drop_last();
        assert(unique_stake_pairs(dl)) by {
            assert(forall|i: int| 0 <= i < dl.len() ==> dl[i] == s[i]);
        }
        lemma_other_stakes_unique(dl, controller);
        let o = other_stakes(s, controller);
        let odl = other_stakes(dl, controller);
        assert(forall|k: int| 0 <= k < odl.len() ==> s.contains(#[trigger] odl[k])) by {
            assert forall|k: int| 0 <= k < odl.len() implies s.contains(#[trigger] odl[k]) by {
                let j = choose|j: int| 0 <= j < dl.len() && dl[j] == odl[k];
                assert(s[j] == odl[k]);
            }
        }
        if s.last().controller != controller {
            assert(o == odl.push(s.last()));
            assert forall|i: int, j: int| 0 <= i < j < o.len() implies !(o[i].controller
                == o[j].controller && o[i].contract == o[j].contract) by {
                if j == o.len() - 1 {
                    let m = choose|m: int| 0 <= m < dl.len() && dl[m] == odl[i];
                    assert(s[m] == o[i]);
                    assert(!(s[m].controller == s[s.len() - 1].controller && s[m].contract
                        == s[s.len() - 1].contract));
                } else {
                    assert(o[i] == odl[i] && o[j] == odl[j]);
                }
            }
        }
    }
}

/// Removing one controller's votes keeps the rest unique, free of
/// that controller, and drawn from the original records; the map of
/// what is kept is the original map without that controller's keys.
pub proof fn lemma_other_votes_unique(s: Seq<VoteRecord>, controller: AccountId)
    requires
        unique_vote_keys(s),
    ensures
        unique_vote_keys(other_votes(s, controller)),
        forall|k: int| 0 <= k < other_votes(s, controller).len()
            ==> (#[trigger] other_votes(s, controller)[k]).controller != controller,
        forall|k: int| 0 <= k < other_votes(s, controller).len()
            ==> s.contains(#[trigger] other_votes(s, controller)[k]),
    decreases s.len(),
{
    if s.len() > 0 {
        let dl = s.drop_last();
        assert(unique_vote_keys(dl)) by {
            assert(forall|i: int| 0 <= i < dl.len() ==> dl[i] == s[i]);
        }
        lemma_other_votes_unique(dl, controller);
        let o = other_votes(s, controller);
        let odl = other_votes(dl, controller);
        assert(forall|k: int| 0 <= k < odl.len() ==> s.contains(#[trigger] odl[k])) by {
            assert forall|k: int| 0 <= k < odl.len() implies s.contains(#[trigger] odl[k]) by {
                let j = choose|j: int| 0 <= j < dl.len() && dl[j] == odl[k];
                assert(s[j] == odl[k]);
            }
        }
        if s.last().controller != controller {
            assert(o == odl.push(s.last()));
            assert forall|i: int, j: int| 0 <= i < j < o.len() implies vote_key(o[i])
                != vote_key(o[j]) by {
                if j == o.len() - 1 {
                    let m = choose|m: int| 0 <= m < dl.len() && dl[m] == odl[i];
                    assert(s[m] == o[i]);
                    assert(vote_key(s[m]) != vote_key(s[s.len() - 1]));
                } else {
                    assert(o[i] == odl[i] && o[j] == odl[j]);
                }
            }
        }
    }
}

/// A run of strictly increasing neighbours is strictly increasing
/// everywhere.
pub proof fn lemma_adjacent_sorted(s: Seq<AccountId>, i: int, j: int)
    requires
        forall|k: int| 0 <= k < s.len() - 1 ==> #[trigger] s[k] < s[k + 1],
        0 <= i < j < s.len(),
    ensures
        s[i] < s[j],
    decreases j - i,
{
    if i + 1 < j {
        lemma_adjacent_sorted(s, i, j - 1);
        assert(s[j - 1] < s[j]);
    }
}

/// Splitting off one controller's records splits the sum.
pub proof fn lemma_controller_sum_split(s: Seq<StakeRecord>, controller: AccountId)
    ensures
        sum_amounts(other_stakes(s, controller)) + controller_sum(s, controller)
            == sum_amounts(s),
        controller_sum(s, controller) >= 0,
        sum_amounts(other_stakes(s, controller)) >= 0,
    decreases s.len(),
{
    lemma_sum_amounts_nonneg(other_stakes(s, controller));
    if s.len() > 0 {
        lemma_controller_sum_split(s.drop_last(), controller);
        if s.last().controller != controller {
            lemma_sum_amounts_push(other_stakes(s.drop_last(), controller), s.last());
        }
        if s.last().controller == controller {
        } else {
            lemma_sum_amounts_nonneg(other_stakes(s.drop_last(), controller));
        }
        lemma_sum_amounts_nonneg(s.drop_last());
        if s.last().controller == controller {
        }
    }
    lemma_sum_amounts_nonneg(s);
}

/// No two records address the same contract from the same controller.
pub open spec fn unique_stake_pairs(s: Seq<StakeRecord>) -> bool {
    forall|i: int, j: int|
        0 <= i < j < s.len() ==> !(#[trigger] s[i].controller == #[trigger] s[j].controller
            && s[i].contract == s[j].contract)
}

// ---------------------------------------------------------------------
// Votes as a map from (controller, contract) to the retained vote.
// ---------------------------------------------------------------------

/// The key under which one vote record stands.
pub open spec fn vote_key(r: VoteRecord) -> (AccountId, AccountId) {
    (r.controller, r.contract)
}

/// No two records carry the same key.
pub open spec fn unique_vote_keys(s: Seq<VoteRecord>) -> bool {
    forall|i: int, j: int|
        0 <= i < j < s.len() ==> #[trigger] vote_key(s[i]) != #[trigger] vote_key(s[j])
}

/// The vote relation the records encode; a later record overrides an
/// earlier one with the same key.
pub open spec fn vote_map(s: Seq<VoteRecord>) -> Map<(AccountId, AccountId), Vote>
    decreases s.len(),
{
    if s.len() == 0 {
        Map::empty()
    } else {
        vote_map(s.drop_last()).insert(vote_key(s.last()), s.last().vote)
    }
}

pub proof fn lemma_vote_map_push(s: Seq<VoteRecord>, r: VoteRecord)
    ensures
        vote_map(s.push(r)) == vote_map(s).insert(vote_key(r), r.vote),
{
    assert(s.push(r).drop_last() =~= s);
}

/// Overwriting the record at `k` in place updates the map at its key.
pub proof fn lemma_vote_map_update(s: Seq<VoteRecord>, k: int, r: VoteRecord)
    requires
        unique_vote_keys(s),
        0 <= k < s.len(),
        vote_key(r) == vote_key(s[k]),
    ensures
        vote_map(s.update(k, r)) == vote_map(s).insert(vote_key(r), r.vote),
    decreases s.len(),
{
    if k == s.len() - 1 {
        assert(s.update(k, r).drop_last() =~= s.drop_last());
        assert(s.update(k, r).last() == r);
    } else {
        let st = s.drop_last();
        assert(s.update(k, r).drop_last() =~= st.update(k, r));
        assert(s.update(k, r).last() == s.last());
        lemma_vote_map_update(st, k, r);
        assert(vote_key(s[k]) != vote_key(s.last()));
        assert(vote_map(s.update(k, r)) == vote_map(st).insert(vote_key(r), r.vote).insert(
            vote_key(s.last()),
            s.last().vote,
        ));
        assert(vote_map(st).insert(vote_key(r), r.vote).insert(vote_key(s.last()), s.last().vote)
            =~= vote_map(st).insert(vote_key(s.last()), s.last().vote).insert(
            vote_key(r),
            r.vote,
        ));
    }
}

/// The net effect of one `vote_contracts` call on the vote relation:
/// each pair is written in order, so within the call too the last
/// write wins.
pub open spec fn apply_votes(
    m: Map<(AccountId, AccountId), Vote>,
    controller: AccountId,
    targets: Seq<(AccountId, Vote)>,
) -> Map<(AccountId, AccountId), Vote>
    decreases targets.len(),
{
    if targets.len() == 0 {
        m
    } else {
        apply_votes(m, controller, targets.drop_last()).insert(
            (controller, targets.last().0),
            targets.last().1,
        )
    }
}

pub proof fn lemma_apply_votes_take_step(
    m: Map<(AccountId, AccountId), Vote>,
    controller: AccountId,
    targets: Seq<(AccountId, Vote)>,
    i: int,
)
    requires
        0 <= i < targets.len(),
    ensures
        apply_votes(m, controller, targets.take(i + 1))
            == apply_votes(m, controller, targets.take(i)).insert(
            (controller, targets[i].0),
            targets[i].1,
        ),
{
    assert(targets.take(i + 1).drop_last() =~= targets.take(i));
    assert(targets.take(i + 1).last() == targets[i]);
}

pub proof fn lemma_apply_votes_take_all(
    m: Map<(AccountId, AccountId), Vote>,
    controller: AccountId,
    targets: Seq<(AccountId, Vote)>,
)
    ensures
        apply_votes(m, controller, targets.take(targets.len() as int))
            == apply_votes(m, controller, targets),
{
    assert(targets.take(targets.len() as int) =~= targets);
}

/// The vote records that do not belong to `controller`.
pub open spec fn other_votes(s: Seq<VoteRecord>, controller: AccountId) -> Seq<VoteRecord>
    decreases s.len(),
{
    if s.len() == 0 {
        Seq::empty()
    } else if s.last().controller == controller {
        other_votes(s.drop_last(), controller)
    } else {
        other_votes(s.drop_last(), controller).push(s.last())
    }
}

pub proof fn lemma_votes_take_step(s: Seq<VoteRecord>, controller: AccountId, i: int)
    requires
        0 <= i < s.len(),
    ensures
        s[i].controller == controller ==> other_votes(s.take(i + 1), controller)
            == other_votes(s.take(i), controller),
        s[i].controller != controller ==> other_votes(s.take(i + 1), controller)
            == other_votes(s.take(i), controller).push(s[i]),
{
    assert(s.take(i + 1).drop_last() =~= s.take(i));
    assert(s.take(i + 1).last() == s[i]);
}

pub proof fn lemma_votes_take_all(s: Seq<VoteRecord>, controller: AccountId)
    ensures
        other_votes(s.take(s.len() as int), controller) == other_votes(s, controller),
{
    assert(s.take(s.len() as int) =~= s);
}

// ---------------------------------------------------------------------
// Payout-claim records kept through a history purge.
// ---------------------------------------------------------------------

/// The claim records whose era lies outside the purged window
/// `[lo, hi)`, in their original order.
pub open spec fn kept_claims(
    s: Seq<(AccountId, EraIndex)>,
    lo: EraIndex,
    hi: EraIndex,
) -> Seq<(AccountId, EraIndex)>
    decreases s.len(),
{
    if s.len() == 0 {
        Seq::empty()
    } else if lo <= s.last().1 < hi {
        kept_claims(s.drop_last(), lo, hi)
    } else {
        kept_claims(s.drop_last(), lo, hi).push(s.last())
    }
}

pub proof fn lemma_claims_take_step(
    s: Seq<(AccountId, EraIndex)>,
    lo: EraIndex,
    hi: EraIndex,
    i: int,
)
    requires
        0 <= i < s.len(),
    ensures
        (lo <= s[i].1 < hi) ==> kept_claims(s.take(i + 1), lo, hi)
            == kept_claims(s.take(i), lo, hi),
        !(lo <= s[i].1 < hi) ==> kept_claims(s.take(i + 1), lo, hi)
            == kept_claims(s.take(i), lo, hi).push(s[i]),
{
    assert(s.take(i + 1).drop_last() =~= s.take(i));
    assert(s.take(i + 1).last() == s[i]);
}

pub proof fn lemma_claims_take_all(s: Seq<(AccountId, EraIndex)>, lo: EraIndex, hi: EraIndex)
    ensures
        kept_claims(s.take(s.len() as int), lo, hi) == kept_claims(s, lo, hi),
{
    assert(s.take(s.len() as int) =~= s);
}

// ---------------------------------------------------------------------
// Division facts behind the proportional reward split.
// ---------------------------------------------------------------------

/// A proportional part never exceeds the whole: for `a <= b`,
/// `x * a / b <= x`.
pub proof fn lemma_mul_div_le(x: int, a: int, b: int)
    requires
        0 <= x,
        0 <= a <= b,
        0 < b,
    ensures
        x * a / b <= x,
{
    vstd::arithmetic::mul::lemma_mul_inequality(a, b, x);
    vstd::arithmetic::mul::lemma_mul_is_commutative(a, x);
    vstd::arithmetic::mul::lemma_mul_is_commutative(b, x);
    vstd::arithmetic::div_mod::lemma_div_is_ordered(x * a, x * b, b);
    vstd::arithmetic::div_mod::lemma_div_multiples_vanish(x, b);
    vstd::arithmetic::mul::lemma_mul_is_commutative(x, b);
}

/// The product of two word-sized amounts fits a double word.
pub proof fn lemma_mul_u64_fits_u128(a: int, b: int)
    requires
        0 <= a <= u64::MAX,
        0 <= b <= u64::MAX,
    ensures
        a * b <= u128::MAX,
{
    vstd::arithmetic::mul::lemma_mul_upper_bound(a, u64::MAX as int, b, u64::MAX as int);
    assert((u64::MAX as int) * (u64::MAX as int) <= u128::MAX);
}

/// Flooring loses at most the fraction: `a/d + b/d <= (a+b)/d`.
pub proof fn lemma_div_superadditive(a: int, b: int, d: int)
    requires
        0 <= a,
        0 <= b,
        0 < d,
    ensures
        a / d + b / d <= (a + b) / d,
{
    vstd::arithmetic::div_mod::lemma_fundamental_div_mod(a, d);
    vstd::arithmetic::div_mod::lemma_fundamental_div_mod(b, d);
    let q = a / d + b / d;
    assert(a + b >= d * q) by {
        vstd::arithmetic::div_mod::lemma_remainder_lower(a, d);
        vstd::arithmetic::div_mod::lemma_remainder_lower(b, d);
        vstd::arithmetic::mul::lemma_mul_is_distributive_add(d, a / d, b / d);
    }
    vstd::arithmetic::div_mod::lemma_div_multiples_vanish(q, d);
    vstd::arithmetic::div_mod::lemma_div_is_ordered(d * q, a + b, d);
}

} // verus!
