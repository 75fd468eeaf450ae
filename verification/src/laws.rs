//! What holds of the bandwidth ledger's transitions.

use vstd::prelude::*;
use crate::model::{StakeCall, State};
use crate::primitives::{AccountId, Balance, BlockNumber};
use crate::tier::StakingLevel;

verus! {

/// Without stakers nobody is granted bandwidth.
pub proof fn lemma_granted_empty(levels: Map<u8, StakingLevel>)
    ensures
        crate::model::granted(levels, Map::<AccountId, Balance>::empty()) == Map::<AccountId, Balance>::empty(),
{
    assert(crate::model::granted(levels, Map::<AccountId, Balance>::empty()) =~= Map::<
        AccountId,
        Balance,
    >::empty());
}

/// One staker more is granted what its stake earns, and the others what they were granted
/// without it.
pub proof fn lemma_granted_insert(
    levels: Map<u8, StakingLevel>,
    staking: Map<AccountId, Balance>,
    who: AccountId,
    locked: Balance,
)
    requires
        !staking.contains_key(who),
    ensures
        !crate::model::granted(levels, staking).contains_key(who),
        crate::model::granted(levels, staking.insert(who, locked)) == match crate::tier::resolve(levels, locked) {
            Some(earned) => crate::model::granted(levels, staking).insert(who, earned),
            None => crate::model::granted(levels, staking),
        },
{
    let grown = crate::model::granted(levels, staking.insert(who, locked));
    match crate::tier::resolve(levels, locked) {
        Some(earned) => {
            assert(grown =~= crate::model::granted(levels, staking).insert(who, earned));
        },
        None => {
            assert(grown =~= crate::model::granted(levels, staking));
        },
    }
}

/// Every transition keeps a well-formed state well-formed, where staked amounts are not zero.
pub proof fn lemma_transitions_keep_wf(
    s: State,
    who: AccountId,
    amount: Balance,
    now: BlockNumber,
    rank: u8,
    level: StakingLevel,
)
    requires
        s.wf(),
    ensures
        amount > 0 ==> s.stake(who, amount).wf(),
        s.unstake(who).wf(),
        s.spend(who, amount).wf(),
        s.new_period().wf(),
        s.force_period(now).wf(),
        s.finalize_block(now).wf(),
        s.add_staking_level(rank, level).wf(),
{
}

/// What an account has staked is the sum of the amounts it staked since it last released
/// its stake, held at the largest balance.
pub proof fn lemma_stake_is_sum_since_release(start: State, calls: Seq<StakeCall>, who: AccountId)
    requires
        start.stake_of(who) == 0,
    ensures
        start.apply_all(calls).stake_of(who) == if crate::model::staked_since_release(calls, who) > Balance::MAX {
            Balance::MAX as int
        } else {
            crate::model::staked_since_release(calls, who) as int
        },
    decreases calls.len(),
{
    if calls.len() > 0 {
        lemma_stake_is_sum_since_release(start, calls.drop_last(), who);
    }
}

/// While the sum fits a balance, what an account has staked is exactly the sum of the
/// amounts it staked since it last released its stake.
pub proof fn lemma_stake_is_exact_sum(start: State, calls: Seq<StakeCall>, who: AccountId)
    requires
        start.stake_of(who) == 0,
        crate::model::staked_since_release(calls, who) <= Balance::MAX,
    ensures
        start.apply_all(calls).stake_of(who) == crate::model::staked_since_release(calls, who),
{
    lemma_stake_is_sum_since_release(start, calls, who);
}

/// Staking and releasing by one account leaves what the others have staked as it was.
pub proof fn lemma_stake_calls_are_per_account(s: State, call: StakeCall, other: AccountId)
    requires
        match call {
            StakeCall::Stake(sender, _) => sender != other,
            StakeCall::Unstake(sender) => sender != other,
        },
    ensures
        s.apply(call).stake_of(other) == s.stake_of(other),
        s.apply(call).bandwidth_of(other) == s.bandwidth_of(other),
{
}

/// Releasing the stake of an account that has none changes nothing.
pub proof fn lemma_unstake_of_no_staker(s: State, who: AccountId)
    requires
        s.wf(),
        !s.staking.contains_key(who),
    ensures
        s.unstake(who) == s,
{
    assert(s.staking.remove(who) =~= s.staking);
    assert(s.bandwidth.remove(who) =~= s.bandwidth);
}

/// After the end of a block that begins a period, every staker has the bandwidth that its
/// stake earns, and no record where it earns nothing; nobody else has a record.
pub proof fn lemma_period_grants_by_stake(s: State, now: BlockNumber, who: AccountId)
    requires
        crate::model::is_boundary(s.period, now),
    ensures
        s.finalize_block(now).staking == s.staking,
        s.finalize_block(now).levels == s.levels,
        s.finalize_block(now).last_period_block == now,
        s.staking.contains_key(who) ==> match crate::tier::resolve(s.levels, s.staking[who]) {
            Some(earned) => s.finalize_block(now).bandwidth.contains_key(who) && s.finalize_block(
                now,
            ).bandwidth[who] == earned,
            None => !s.finalize_block(now).bandwidth.contains_key(who),
        },
        !s.staking.contains_key(who) ==> !s.finalize_block(now).bandwidth.contains_key(who),
{
}

/// Ending the same block twice gives what ending it once gives.
pub proof fn lemma_finalize_is_idempotent(s: State, now: BlockNumber)
    ensures
        s.finalize_block(now).finalize_block(now) == s.finalize_block(now),
        s.new_period().new_period() == s.new_period(),
{
}

/// A block whose height is no multiple of the period's length ends without any change.
pub proof fn lemma_no_change_between_boundaries(s: State, now: BlockNumber)
    requires
        !crate::model::is_boundary(s.period, now),
    ensures
        s.finalize_block(now) == s,
{
}

/// A fee above the bandwidth of the caller is not waived and takes nothing.
pub proof fn lemma_uncovered_fee_takes_nothing(s: State, who: AccountId, fee: Balance)
    requires
        fee > s.bandwidth_of(who),
    ensures
        !s.can_spend(who, fee),
        s.spend(who, fee) == s,
{
}

/// A covered fee is taken in full from the caller alone, and the bandwidth never falls
/// below zero.
pub proof fn lemma_covered_fee_is_taken(s: State, who: AccountId, fee: Balance, other: AccountId)
    requires
        fee <= s.bandwidth_of(who),
    ensures
        s.can_spend(who, fee),
        s.spend(who, fee).bandwidth_of(who) == s.bandwidth_of(who) - fee,
        s.spend(who, fee).bandwidth_of(who) >= 0,
        other != who ==> s.spend(who, fee).bandwidth_of(other) == s.bandwidth_of(other),
        s.spend(who, fee).staking == s.staking,
{
}

/// An account that released its stake has no bandwidth, neither at once nor after the next
/// period has begun.
pub proof fn lemma_unstaked_gets_no_bandwidth(s: State, who: AccountId)
    ensures
        !s.unstake(who).staking.contains_key(who),
        !s.unstake(who).bandwidth.contains_key(who),
        !s.unstake(who).new_period().bandwidth.contains_key(who),
{
}

/// A stake earns nothing exactly when it reaches no level, and otherwise the bandwidth of
/// the level with the highest index among those it reaches.
pub proof fn lemma_resolve_picks_highest_rank(levels: Map<u8, StakingLevel>, stake: Balance)
    ensures
        crate::tier::resolve(levels, stake) is None <==> forall|r: int|
            !crate::tier::qualifies(levels, stake, r),
        crate::tier::resolve(levels, stake) matches Some(earned) ==> exists|r: int|
            #[trigger] crate::tier::qualifies(levels, stake, r) && earned
                == levels[r as u8].bandwidth && forall|above: int|
                r < above ==> !crate::tier::qualifies(levels, stake, above),
{
    crate::tier::lemma_resolve_from(levels, stake, u8::MAX as int);
    match crate::tier::resolve(levels, stake) {
        Some(earned) => {
            let r = choose|r: int|
                0 <= r <= u8::MAX && #[trigger] crate::tier::qualifies(levels, stake, r) && earned
                    == levels[r as u8].bandwidth && forall|above: int|
                    r < above <= u8::MAX ==> !crate::tier::qualifies(levels, stake, above);
            assert(forall|above: int| r < above ==> !crate::tier::qualifies(levels, stake, above));
        },
        None => {},
    }
}

} // verus!
