//! The bandwidth ledger as a mathematical state with its transitions.
//!
//! Every operation of [`crate::feeless::Pallet`] is stated as one of the transitions below,
//! and [`crate::laws`] proves what holds of them.

use vstd::prelude::*;
use crate::primitives::{AccountId, Balance, BlockNumber};
use crate::tier::StakingLevel;

verus! {

/// The sum of two balances, held at the largest balance.
pub open spec fn saturating_sum(a: Balance, b: Balance) -> Balance {
    if a + b > Balance::MAX {
        Balance::MAX
    } else {
        (a + b) as Balance
    }
}

/// Whether `now` is a multiple of `period`.
pub open spec fn is_boundary(period: BlockNumber, now: BlockNumber) -> bool {
    if period == 0 {
        now == 0
    } else {
        now % period == 0
    }
}

/// The bandwidth that each staker starts a period with: what its stake earns under `levels`,
/// and no record where it earns nothing.
pub open spec fn granted(levels: Map<u8, StakingLevel>, staking: Map<AccountId, Balance>) -> Map<
    AccountId,
    Balance,
> {
    Map::new(
        |who: AccountId|
            staking.contains_key(who) && crate::tier::resolve(levels, staking[who]) is Some,
        |who: AccountId| crate::tier::resolve(levels, staking[who]).unwrap(),
    )
}

/// A request that changes what an account has staked.
pub enum StakeCall {
    /// The account stakes the amount.
    Stake(AccountId, Balance),
    /// The account releases all that it has staked.
    Unstake(AccountId),
}

/// What `who` has staked by `calls` since it last released its stake.
pub open spec fn staked_since_release(calls: Seq<StakeCall>, who: AccountId) -> nat
    decreases calls.len(),
{
    if calls.len() == 0 {
        0
    } else {
        let before = staked_since_release(calls.drop_last(), who);
        match calls.last() {
            StakeCall::Stake(sender, amount) => if sender == who {
                before + amount as nat
            } else {
                before
            },
            StakeCall::Unstake(sender) => if sender == who {
                0
            } else {
                before
            },
        }
    }
}

/// Everything the bandwidth ledger keeps.
pub struct State {
    /// Length of a period in blocks.
    pub period: BlockNumber,
    /// The last block at which a period began.
    pub last_period_block: BlockNumber,
    /// What each staker has locked.
    pub staking: Map<AccountId, Balance>,
    /// What each account may still spend in this period.
    pub bandwidth: Map<AccountId, Balance>,
    /// The staking levels by index.
    pub levels: Map<u8, StakingLevel>,
}

impl State {
    /// A staker has something locked, and only stakers have bandwidth.
    pub open spec fn wf(self) -> bool {
        &&& forall|who: AccountId|
            (#[trigger] self.staking.contains_key(who)) ==> self.staking[who] > 0
        &&& forall|who: AccountId|
            (#[trigger] self.bandwidth.contains_key(who)) ==> self.staking.contains_key(who)
    }

    /// What `who` has locked: nothing where it is no staker.
    pub open spec fn stake_of(self, who: AccountId) -> Balance {
        if self.staking.contains_key(who) {
            self.staking[who]
        } else {
            0
        }
    }

    /// What `who` may still spend: nothing where it has no record.
    pub open spec fn bandwidth_of(self, who: AccountId) -> Balance {
        if self.bandwidth.contains_key(who) {
            self.bandwidth[who]
        } else {
            0
        }
    }

    /// The state with nothing staked, no levels, and the last period begun at block 0.
    pub open spec fn genesis(period: BlockNumber) -> State {
        State {
            period,
            last_period_block: 0,
            staking: Map::empty(),
            bandwidth: Map::empty(),
            levels: Map::empty(),
        }
    }

    /// The state that the listed levels, stakes and bandwidths stand for.
    pub open spec fn restored(
        period: BlockNumber,
        last_period_block: BlockNumber,
        levels: Seq<(u8, StakingLevel)>,
        stakes: Seq<(AccountId, Balance)>,
        bandwidths: Seq<(AccountId, Balance)>,
    ) -> State {
        State {
            period,
            last_period_block,
            staking: crate::storage::map_of(stakes),
            bandwidth: crate::storage::map_of(bandwidths),
            levels: crate::storage::map_of(levels),
        }
    }

    /// Whether the lists stand for a well-formed state: no index and no account occurs
    /// twice in a list, every stake is above zero, and only stakers have bandwidth.
    pub open spec fn restorable(
        levels: Seq<(u8, StakingLevel)>,
        stakes: Seq<(AccountId, Balance)>,
        bandwidths: Seq<(AccountId, Balance)>,
    ) -> bool {
        &&& crate::storage::distinct_keys(levels)
        &&& crate::storage::distinct_keys(stakes)
        &&& crate::storage::distinct_keys(bandwidths)
        &&& State::restored(0, 0, levels, stakes, bandwidths).wf()
    }

    /// `level` put under the index `rank`.
    pub open spec fn add_staking_level(self, rank: u8, level: StakingLevel) -> State {
        State { levels: self.levels.insert(rank, level), ..self }
    }

    /// `amount` more locked for `who`. The bandwidth stays as it is until the next period.
    pub open spec fn stake(self, who: AccountId, amount: Balance) -> State {
        State {
            staking: self.staking.insert(who, saturating_sum(self.stake_of(who), amount)),
            ..self
        }
    }

    /// All of the stake of `who` released, and its bandwidth with it.
    pub open spec fn unstake(self, who: AccountId) -> State {
        State { staking: self.staking.remove(who), bandwidth: self.bandwidth.remove(who), ..self }
    }

    /// The state after `call`.
    pub open spec fn apply(self, call: StakeCall) -> State {
        match call {
            StakeCall::Stake(sender, amount) => self.stake(sender, amount),
            StakeCall::Unstake(sender) => self.unstake(sender),
        }
    }

    /// The state after `calls`, one after the other.
    pub open spec fn apply_all(self, calls: Seq<StakeCall>) -> State
        decreases calls.len(),
    {
        if calls.len() == 0 {
            self
        } else {
            self.apply_all(calls.drop_last()).apply(calls.last())
        }
    }

    /// The bandwidth of every staker set anew from its stake.
    pub open spec fn new_period(self) -> State {
        State { bandwidth: granted(self.levels, self.staking), ..self }
    }

    /// The last period taken to have begun at `now`.
    pub open spec fn force_period(self, now: BlockNumber) -> State {
        State { last_period_block: now, ..self }
    }

    /// The end of block `now`: a new period where `now` is a multiple of the period's
    /// length, and no change otherwise.
    pub open spec fn finalize_block(self, now: BlockNumber) -> State {
        if is_boundary(self.period, now) {
            self.force_period(now).new_period()
        } else {
            self
        }
    }

    /// Whether `who` has the bandwidth for a call that costs `fee`.
    pub open spec fn can_spend(self, who: AccountId, fee: Balance) -> bool {
        self.bandwidth_of(who) >= fee
    }

    /// `fee` taken from the bandwidth of `who` where it has that much, and no change where
    /// it has not.
    pub open spec fn spend(self, who: AccountId, fee: Balance) -> State {
        if self.can_spend(who, fee) && self.bandwidth.contains_key(who) {
            State {
                bandwidth: self.bandwidth.insert(who, (self.bandwidth[who] - fee) as Balance),
                ..self
            }
        } else {
            self
        }
    }
}

} // verus!
