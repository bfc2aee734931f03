//! Laws the engine's model obeys, stated on their own so a reader
//! sees them rather than derives them.

use vstd::prelude::*;
use crate::types::{AccountId, Vote, MAX_UNLOCKING_CHUNKS};
use crate::state::StakingState;
use crate::model::{apply_votes, sum_chunks};

verus! {

/// Every ledger of a well-formed engine balances — its total is its
/// active part plus everything still unlocking — and its unlocking
/// queue is within capacity, at all times: every operation requires
/// and re-establishes well-formedness.
pub proof fn lemma_ledger_balanced(s: StakingState, controller: AccountId)
    requires
        s.wf(),
        s.ledgers@.contains_key(controller),
    ensures
        s.ledgers@[controller].total == s.ledgers@[controller].active + sum_chunks(
            s.ledgers@[controller].unlocking@,
        ),
        s.ledgers@[controller].unlocking@.len() <= MAX_UNLOCKING_CHUNKS,
{
}

/// Votes overwrite: when one controller votes twice on the same
/// contract — in two calls or within one — only the later vote is
/// retained, whatever was recorded before.
pub proof fn lemma_vote_overwrite(
    m: Map<(AccountId, AccountId), Vote>,
    controller: AccountId,
    contract: AccountId,
    first: Vote,
    second: Vote,
)
    ensures
        apply_votes(
            apply_votes(m, controller, seq![(contract, first)]),
            controller,
            seq![(contract, second)],
        ) == apply_votes(m, controller, seq![(contract, second)]),
        apply_votes(
            apply_votes(m, controller, seq![(contract, first)]),
            controller,
            seq![(contract, second)],
        )[(controller, contract)] == second,
        apply_votes(m, controller, seq![(contract, first), (contract, second)])[(
            controller,
            contract,
        )] == second,
{
    let one = seq![(contract, first)];
    let two = seq![(contract, second)];
    let both = seq![(contract, first), (contract, second)];
    assert(one.drop_last() =~= Seq::<(AccountId, Vote)>::empty());
    assert(two.drop_last() =~= Seq::<(AccountId, Vote)>::empty());
    assert(both.len() == 2);
    assert(one.len() == 1);
    assert(one[0] == (contract, first));
    assert(both[0] == (contract, first));
    assert(both.drop_last().len() == 1);
    assert(both.drop_last()[0] == both[0]);
    assert(both.drop_last() =~= one);
    let k = (controller, contract);
    reveal_with_fuel(apply_votes, 3);
    assert(apply_votes(m, controller, one) == m.insert(k, first));
    assert(apply_votes(m, controller, two) == m.insert(k, second));
    assert(apply_votes(m.insert(k, first), controller, two) == m.insert(k, first).insert(
        k,
        second,
    ));
    assert(m.insert(k, first).insert(k, second) =~= m.insert(k, second));
    assert(apply_votes(m, controller, both) == apply_votes(m, controller, one).insert(
        k,
        second,
    ));
}

} // verus!
