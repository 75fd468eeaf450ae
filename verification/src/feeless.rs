//! Bandwidth for fee-exempt calls, earned by staking.
//!
//! An account locks currency and, at the start of each period, is given the bandwidth of
//! the staking level that its stake reaches. A call made through [`Pallet::feeless_call`] is
//! free of its fee where the caller's bandwidth covers the fee.

use vstd::prelude::*;
use crate::currency::{InsufficientFunds, ReservableCurrency};
use crate::model::State;
use crate::primitives::{AccountId, Balance, BlockNumber};
use crate::storage::StorageMap;
use crate::tier::{StakingLevel, TierTable};

verus! {

/// Why an operation of the pallet was refused.
#[derive(Clone, Copy, Debug, PartialEq, Eq)]
pub enum Error {
    /// The account has nothing staked.
    NotStaked,
    /// The balance ledger could not reserve the amount.
    InsufficientFunds,
}

/// Whether the caller pays the fee of a call.
#[derive(Clone, Copy, Debug, PartialEq, Eq)]
pub enum Pays {
    /// The caller pays the ordinary fee.
    Yes,
    /// The fee is waived.
    No,
}

/// The runtime that hosts the pallet: its balance ledger, its fee estimate and its
/// dispatcher of calls.
///
/// The pallet is proved against the clauses below, so an implementation has to meet them.
pub trait Config: ReservableCurrency {
    /// A call that can be dispatched on behalf of an account.
    type Call;

    /// The fee of `call`.
    spec fn call_fee(&self, call: &Self::Call) -> Balance;

    /// What dispatching `call` for `origin` returns, where the pallet is in the state
    /// `pallet`.
    spec fn dispatch_outcome(
        &self,
        pallet: State,
        origin: AccountId,
        call: &Self::Call,
    ) -> Result<(), Self::DispatchError>;

    /// The runtime after `call` was dispatched for `origin`, where the pallet was in the
    /// state `pallet`.
    spec fn after_dispatch(&self, pallet: State, origin: AccountId, call: &Self::Call) -> Self;

    /// The state of the pallet after `call` was dispatched for `origin`, where the pallet
    /// was in the state `pallet`.
    spec fn pallet_after_dispatch(
        &self,
        pallet: State,
        origin: AccountId,
        call: &Self::Call,
    ) -> State;

    /// The fee that `call` would be charged.
    fn estimate_call_fee(&self, call: &Self::Call) -> (fee: Balance)
        ensures
            fee == self.call_fee(call),
    ;

    /// Runs `call` as if `origin` had signed it. The call may be one of this pallet's own,
    /// so it is handed the pallet. A call that fails changes nothing.
    fn dispatch(&mut self, pallet: &mut Pallet, origin: &AccountId, call: &Self::Call) -> (r:
        Result<(), Self::DispatchError>)
        requires
            old(pallet).wf(),
        ensures
            final(pallet).wf(),
            r == old(self).dispatch_outcome(old(pallet)@, *origin, call),
            *final(self) == old(self).after_dispatch(old(pallet)@, *origin, call),
            final(pallet)@ == old(self).pallet_after_dispatch(old(pallet)@, *origin, call),
            r is Err ==> *final(self) == *old(self) && final(pallet)@ == old(pallet)@,
    ;
}

/// The levels that a chain starts with.
#[derive(Clone, Copy, Debug, PartialEq, Eq)]
pub struct GenesisConfig {
    /// Length of a period in blocks.
    pub period: BlockNumber,
}

/// Stake that reaches the first level at genesis: ten thousand coins of `10^18` units.
pub const GENESIS_FIRST_STAKE: Balance = 10_000_000_000_000_000_000_000;

/// Bandwidth of the first level at genesis: one coin.
pub const GENESIS_FIRST_BANDWIDTH: Balance = 1_000_000_000_000_000_000;

/// Stake that reaches the second level at genesis: seventy thousand coins, as the nearest
/// double-precision number has it.
pub const GENESIS_SECOND_STAKE: Balance = 70_000_000_000_000_004_194_304;

/// Bandwidth of the second level at genesis: three coins.
pub const GENESIS_SECOND_BANDWIDTH: Balance = 3_000_000_000_000_000_000;

impl GenesisConfig {
    /// The state that [`Self::build`] gives.
    pub open spec fn built(self) -> State {
        State::genesis(self.period).add_staking_level(
            1,
            (StakingLevel {
                bic_locked: GENESIS_FIRST_STAKE,
                bandwidth: GENESIS_FIRST_BANDWIDTH,
            }),
        ).add_staking_level(
            2,
            (StakingLevel {
                bic_locked: GENESIS_SECOND_STAKE,
                bandwidth: GENESIS_SECOND_BANDWIDTH,
            }),
        )
    }

    /// The pallet at genesis: the last period begun at block 0, two staking levels, no
    /// stakes.
    pub fn build(&self) -> (pallet: Pallet)
        ensures
            pallet.wf(),
            pallet@ == self.built(),
    {
        let mut pallet = Pallet::new(self.period);
        pallet.add_staking_level(1, GENESIS_FIRST_STAKE, GENESIS_FIRST_BANDWIDTH);
        pallet.add_staking_level(2, GENESIS_SECOND_STAKE, GENESIS_SECOND_BANDWIDTH);
        pallet
    }
}

/// The stakes, the bandwidth of the running period, the staking levels and the period's clock.
pub struct Pallet {
    period: BlockNumber,
    last_period_block: BlockNumber,
    staking: StorageMap<AccountId, Balance>,
    bandwidth: StorageMap<AccountId, Balance>,
    levels: TierTable,
}

impl Pallet {
    /// The state that the pallet holds.
    pub closed spec fn view(&self) -> State {
        State {
            period: self.period,
            last_period_block: self.last_period_block,
            staking: self.staking@,
            bandwidth: self.bandwidth@,
            levels: self.levels@,
        }
    }

    /// The stores are sound.
    pub closed spec fn stored(&self) -> bool {
        &&& self.staking.wf()
        &&& self.bandwidth.wf()
        &&& self.levels.wf()
    }

    /// The stores are sound and the state is well-formed.
    pub open spec fn wf(&self) -> bool {
        self.stored() && self@.wf()
    }

    /// A pallet with periods of `period` blocks, without levels or stakes.
    pub fn new(period: BlockNumber) -> (pallet: Self)
        ensures
            pallet.wf(),
            pallet@ == State::genesis(period),
    {
        Pallet {
            period,
            last_period_block: 0,
            staking: StorageMap::new(),
            bandwidth: StorageMap::new(),
            levels: TierTable::new(),
        }
    }

    /// The staking levels with their indices, in rising order of the index.
    pub fn staking_levels(&self) -> (list: Vec<(u8, StakingLevel)>)
        requires
            self.wf(),
        ensures
            crate::tier::rising(list@),
            crate::storage::distinct_keys(list@),
            crate::storage::map_of(list@) == self@.levels,
    {
        self.levels.to_vec()
    }

    /// The stakers, each with what it has staked.
    pub fn stakes(&self) -> (list: Vec<(AccountId, Balance)>)
        requires
            self.wf(),
        ensures
            crate::storage::distinct_keys(list@),
            crate::storage::map_of(list@) == self@.staking,
    {
        self.staking.to_vec()
    }

    /// The accounts with a bandwidth record, each with what it may still spend.
    pub fn bandwidths(&self) -> (list: Vec<(AccountId, Balance)>)
        requires
            self.wf(),
        ensures
            crate::storage::distinct_keys(list@),
            crate::storage::map_of(list@) == self@.bandwidth,
    {
        self.bandwidth.to_vec()
    }

    /// The pallet that the listed levels, stakes and bandwidths stand for, as
    /// [`Self::staking_levels`], [`Self::stakes`] and [`Self::bandwidths`] list them.
    ///
    /// Gives nothing where an index or an account occurs twice in a list, where a stake is
    /// zero, or where an account without a stake has bandwidth.
    pub fn restore(
        period: BlockNumber,
        last_period_block: BlockNumber,
        levels: &[(u8, StakingLevel)],
        stakes: &[(AccountId, Balance)],
        bandwidths: &[(AccountId, Balance)],
    ) -> (r: Option<Self>)
        ensures
            r is Some <==> State::restorable(levels@, stakes@, bandwidths@),
            r matches Some(pallet) ==> pallet.wf() && pallet@ == State::restored(
                period,
                last_period_block,
                levels@,
                stakes@,
                bandwidths@,
            ),
    {
        let table = match TierTable::from_pairs(levels) {
            Some(table) => table,
            None => {
                return None;
            },
        };
        let staking = match StorageMap::from_pairs(stakes) {
            Some(staking) => staking,
            None => {
                return None;
            },
        };
        let bandwidth = match StorageMap::from_pairs(bandwidths) {
            Some(bandwidth) => bandwidth,
            None => {
                return None;
            },
        };
        let ghost target = State::restored(0, 0, levels@, stakes@, bandwidths@);
        let mut i: usize = 0;
        while i < stakes.len()
            invariant
                i <= stakes@.len(),
                crate::storage::distinct_keys(stakes@),
                target == State::restored(0, 0, levels@, stakes@, bandwidths@),
                forall|j: int| 0 <= j < i ==> (#[trigger] stakes@[j]).1 > 0,
            decreases stakes@.len() - i,
        {
            if stakes[i].1 == 0 {
                proof {
                    crate::storage::lemma_pair_in_map(stakes@, i as int);
                    assert(target.staking.contains_key(stakes@[i as int].0));
                    assert(target.staking[stakes@[i as int].0] == 0);
                    assert(!target.wf());
                }
                return None;
            }
            i += 1;
        }
        let mut k: usize = 0;
        while k < bandwidths.len()
            invariant
                k <= bandwidths@.len(),
                staking.wf(),
                staking@ == target.staking,
                crate::storage::distinct_keys(bandwidths@),
                target == State::restored(0, 0, levels@, stakes@, bandwidths@),
                forall|j: int|
                    0 <= j < k ==> target.staking.contains_key((#[trigger] bandwidths@[j]).0),
            decreases bandwidths@.len() - k,
        {
            if !staking.contains_key(&bandwidths[k].0) {
                proof {
                    crate::storage::lemma_pair_in_map(bandwidths@, k as int);
                    assert(target.bandwidth.contains_key(bandwidths@[k as int].0));
                    assert(!target.staking.contains_key(bandwidths@[k as int].0));
                    assert(!target.wf());
                }
                return None;
            }
            k += 1;
        }
        proof {
            assert forall|who: AccountId| #[trigger]
                target.staking.contains_key(who) implies target.staking[who] > 0 by {
                let at = crate::storage::position_of(stakes@, who);
                crate::storage::lemma_pair_in_map(stakes@, at);
                assert(stakes@[at].1 > 0);
            }
            assert forall|who: AccountId| #[trigger]
                target.bandwidth.contains_key(who) implies target.staking.contains_key(who) by {
                let at = crate::storage::position_of(bandwidths@, who);
                assert(target.staking.contains_key(bandwidths@[at].0));
            }
        }
        Some(Pallet { period, last_period_block, staking, bandwidth, levels: table })
    }

    /// The length of a period in blocks.
    pub fn period(&self) -> (period: BlockNumber)
        ensures
            period == self@.period,
    {
        self.period
    }

    /// The last block at which a period began.
    pub fn last_period_block(&self) -> (block: BlockNumber)
        ensures
            block == self@.last_period_block,
    {
        self.last_period_block
    }

    /// What `who` has staked: nothing where it is no staker.
    pub fn get_stake(&self, who: &AccountId) -> (locked: Balance)
        requires
            self.wf(),
        ensures
            locked == self@.stake_of(*who),
    {
        match self.staking.get(who) {
            Some(locked) => locked,
            None => 0,
        }
    }

    /// Whether `who` has something staked.
    pub fn is_staker(&self, who: &AccountId) -> (staked: bool)
        requires
            self.wf(),
        ensures
            staked == self@.staking.contains_key(*who),
    {
        self.staking.contains_key(who)
    }

    /// What `who` may still spend in this period: nothing where it has no record.
    pub fn get_bandwidth(&self, who: &AccountId) -> (remaining: Balance)
        requires
            self.wf(),
        ensures
            remaining == self@.bandwidth_of(*who),
    {
        match self.bandwidth.get(who) {
            Some(remaining) => remaining,
            None => 0,
        }
    }

    /// The bandwidth record of `who`, where it has one.
    pub fn bandwidth_record(&self, who: &AccountId) -> (record: Option<Balance>)
        requires
            self.wf(),
        ensures
            record == if self@.bandwidth.contains_key(*who) {
                Some(self@.bandwidth[*who])
            } else {
                None
            },
    {
        self.bandwidth.get(who)
    }

    /// The staking level under the index `rank`, where there is one.
    pub fn get_staking_level(&self, rank: u8) -> (level: Option<StakingLevel>)
        requires
            self.wf(),
        ensures
            level == if self@.levels.contains_key(rank) {
                Some(self@.levels[rank])
            } else {
                None
            },
    {
        self.levels.get(rank)
    }

    /// Puts a level under the index `rank`, in place of the one that was there, if any.
    pub fn add_staking_level(&mut self, rank: u8, bic_locked: Balance, bandwidth: Balance)
        requires
            old(self).wf(),
        ensures
            final(self).wf(),
            final(self)@ == old(self)@.add_staking_level(
                rank,
                (StakingLevel { bic_locked, bandwidth }),
            ),
    {
        self.levels.add_tier(rank, StakingLevel { bic_locked, bandwidth });
        proof {
            assert(self@.staking == old(self)@.staking);
            assert(self@.bandwidth == old(self)@.bandwidth);
        }
    }

    /// Takes the last period to have begun at `now`.
    pub fn force_period(&mut self, now: BlockNumber)
        requires
            old(self).wf(),
        ensures
            final(self).wf(),
            final(self)@ == old(self)@.force_period(now),
    {
        self.last_period_block = now;
        proof {
            assert(self@.staking == old(self)@.staking);
            assert(self@.bandwidth == old(self)@.bandwidth);
        }
    }

    /// Records `amount` more as staked by `who`, once the ledger has answered `reserved` to
    /// the request to reserve it: nothing changes where the ledger refused.
    pub fn lock(&mut self, who: AccountId, amount: Balance, reserved: Result<
        (),
        InsufficientFunds,
    >) -> (r: Result<(), Error>)
        requires
            old(self).wf(),
            amount > 0,
        ensures
            final(self).wf(),
            r == match reserved {
                Ok(_) => Ok::<(), Error>(()),
                Err(_) => Err::<(), Error>(Error::InsufficientFunds),
            },
            final(self)@ == if reserved is Ok {
                old(self)@.stake(who, amount)
            } else {
                old(self)@
            },
    {
        match reserved {
            Ok(_) => {
                let locked: Balance = self.get_stake(&who);
                self.staking.insert(who, locked.saturating_add(amount));
                proof {
                    assert(self@.staking == old(self)@.stake(who, amount).staking);
                    assert(self@.bandwidth == old(self)@.bandwidth);
                }
                Ok(())
            },
            Err(_) => Err(Error::InsufficientFunds),
        }
    }

    /// Stakes `amount` more for `sender`: reserves it on the ledger and records it.
    ///
    /// Fails with [`Error::InsufficientFunds`], and changes nothing, where the ledger cannot
    /// reserve the amount. The bandwidth of `sender` stays as it is until the next period.
    pub fn stake_bic<T: Config>(&mut self, runtime: &mut T, sender: AccountId, amount: Balance) -> (r:
        Result<(), Error>)
        requires
            old(self).wf(),
            amount > 0,
        ensures
            final(self).wf(),
            r == if old(runtime).can_reserve(sender, amount) {
                Ok::<(), Error>(())
            } else {
                Err::<(), Error>(Error::InsufficientFunds)
            },
            r is Ok ==> final(self)@ == old(self)@.stake(sender, amount),
            r is Ok ==> final(runtime).reserved(sender) == old(runtime).reserved(sender) + amount,
            r is Ok ==> final(runtime).free(sender) == old(runtime).free(sender) - amount,
            r is Ok && old(self)@.stake_of(sender) == old(runtime).reserved(sender)
                ==> final(self)@.stake_of(sender) == final(runtime).reserved(sender),
            r is Err ==> final(self)@ == old(self)@ && *final(runtime) == *old(runtime),
            forall|other: AccountId|
                other != sender ==> final(runtime).reserved(other) == old(runtime).reserved(other)
                    && final(runtime).free(other) == old(runtime).free(other),
    {
        let reserved = runtime.reserve(&sender, amount);
        self.lock(sender, amount, reserved)
    }

    /// Releases all that `sender` has staked, and takes its bandwidth away.
    ///
    /// Fails with [`Error::NotStaked`], and changes nothing, where `sender` is no staker.
    pub fn unstake_bic<T: Config>(&mut self, runtime: &mut T, sender: AccountId) -> (r: Result<
        (),
        Error,
    >)
        requires
            old(self).wf(),
        ensures
            final(self).wf(),
            r == if old(self)@.staking.contains_key(sender) {
                Ok::<(), Error>(())
            } else {
                Err::<(), Error>(Error::NotStaked)
            },
            r is Ok ==> final(self)@ == old(self)@.unstake(sender),
            r is Ok ==> *final(runtime) == old(runtime).after_unreserve(
                sender,
                old(self)@.stake_of(sender),
            ),
            r is Ok ==> final(runtime).reserved(sender) == old(runtime).reserved(sender)
                - crate::currency::released(
                old(runtime).reserved(sender),
                old(self)@.stake_of(sender),
            ),
            r is Ok ==> final(runtime).free(sender) == old(runtime).free(sender)
                + crate::currency::released(
                old(runtime).reserved(sender),
                old(self)@.stake_of(sender),
            ),
            r is Ok && old(self)@.stake_of(sender) == old(runtime).reserved(sender)
                ==> final(self)@.stake_of(sender) == final(runtime).reserved(sender),
            r is Err ==> final(self)@ == old(self)@ && *final(runtime) == *old(runtime),
            forall|other: AccountId|
                other != sender ==> final(runtime).reserved(other) == old(runtime).reserved(other)
                    && final(runtime).free(other) == old(runtime).free(other),
    {
        if !self.staking.contains_key(&sender) {
            return Err(Error::NotStaked);
        }
        let locked: Balance = self.get_stake(&sender);
        let _ = runtime.unreserve(&sender, locked);
        self.staking.remove(&sender);
        self.bandwidth.remove(&sender);
        proof {
            assert(self@.staking == old(self)@.staking.remove(sender));
            assert(self@.bandwidth == old(self)@.bandwidth.remove(sender));
        }
        Ok(())
    }

    /// Takes `fee` from the bandwidth of `sender` where it has that much, and says whether
    /// the fee is thereby waived. Where it has less, nothing is taken.
    pub fn charge(&mut self, sender: AccountId, fee: Balance) -> (pays: Pays)
        requires
            old(self).wf(),
        ensures
            final(self).wf(),
            final(self)@ == old(self)@.spend(sender, fee),
            pays == if old(self)@.can_spend(sender, fee) {
                Pays::No
            } else {
                Pays::Yes
            },
    {
        match self.bandwidth.get(&sender) {
            Some(remaining) => {
                if remaining >= fee {
                    self.bandwidth.insert(sender, remaining - fee);
                    proof {
                        assert(self@.staking == old(self)@.staking);
                        assert(self@.bandwidth == old(self)@.spend(sender, fee).bandwidth);
                    }
                    Pays::No
                } else {
                    Pays::Yes
                }
            },
            None => {
                if fee == 0 {
                    Pays::No
                } else {
                    Pays::Yes
                }
            },
        }
    }

    /// Dispatches `call` for `sender` free of its fee, where the bandwidth of `sender`
    /// covers the fee.
    ///
    /// The fee is estimated and taken from the bandwidth first; then the call is dispatched
    /// once, with the pallet as it is after the debit, and `Ok(Pays::No)` or the call's own
    /// failure is returned. A failed call changes nothing and does not get its bandwidth
    /// back. Where the bandwidth does not cover the fee, nothing is taken and nothing is
    /// dispatched: `Ok(Pays::Yes)` tells the caller to dispatch the call for its ordinary
    /// fee.
    pub fn feeless_call<T: Config>(&mut self, runtime: &mut T, sender: AccountId, call: &T::Call) -> (r:
        Result<Pays, T::DispatchError>)
        requires
            old(self).wf(),
        ensures
            final(self).wf(),
            final(self)@ == if old(self)@.can_spend(sender, old(runtime).call_fee(call)) {
                old(runtime).pallet_after_dispatch(
                    old(self)@.spend(sender, old(runtime).call_fee(call)),
                    sender,
                    call,
                )
            } else {
                old(self)@
            },
            *final(runtime) == if old(self)@.can_spend(sender, old(runtime).call_fee(call)) {
                old(runtime).after_dispatch(
                    old(self)@.spend(sender, old(runtime).call_fee(call)),
                    sender,
                    call,
                )
            } else {
                *old(runtime)
            },
            r == if old(self)@.can_spend(sender, old(runtime).call_fee(call)) {
                match old(runtime).dispatch_outcome(
                    old(self)@.spend(sender, old(runtime).call_fee(call)),
                    sender,
                    call,
                ) {
                    Ok(_) => Ok::<Pays, T::DispatchError>(Pays::No),
                    Err(e) => Err::<Pays, T::DispatchError>(e),
                }
            } else {
                Ok::<Pays, T::DispatchError>(Pays::Yes)
            },
            r is Err ==> final(self)@ == old(self)@.spend(sender, old(runtime).call_fee(call))
                && *final(runtime) == *old(runtime),
    {
        let fee: Balance = runtime.estimate_call_fee(call);
        match self.charge(sender, fee) {
            Pays::No => match runtime.dispatch(self, &sender, call) {
                Ok(_) => Ok(Pays::No),
                Err(e) => Err(e),
            },
            Pays::Yes => Ok(Pays::Yes),
        }
    }

    /// Sets the bandwidth of every staker anew: to what its stake earns under the staking
    /// levels, and to no record where it earns nothing.
    pub fn init_stake_new_period(&mut self)
        requires
            old(self).wf(),
        ensures
            final(self).wf(),
            final(self)@ == old(self)@.new_period(),
    {
        let mut fresh: StorageMap<AccountId, Balance> = StorageMap::new();
        let stakers: usize = self.staking.len();
        let mut i: usize = 0;
        proof {
            self.staking.lemma_empty_prefix();
            crate::laws::lemma_granted_empty(self.levels@);
        }
        while i < stakers
            invariant
                self.wf(),
                fresh.wf(),
                i <= stakers,
                stakers == self.staking.entries().len(),
                fresh@ == crate::model::granted(self.levels@, self.staking.prefix_view(i as int)),
            decreases stakers - i,
        {
            let (who, locked) = self.staking.entry_at(i);
            proof {
                self.staking.lemma_prefix_step(i as int);
                crate::laws::lemma_granted_insert(
                    self.levels@,
                    self.staking.prefix_view(i as int),
                    who,
                    locked,
                );
            }
            match self.levels.resolve(locked) {
                Some(earned) => {
                    fresh.push_new(who, earned);
                },
                None => {},
            }
            i += 1;
        }
        proof {
            self.staking.lemma_whole_prefix();
        }
        self.bandwidth = fresh;
        proof {
            assert(self@.staking == old(self)@.staking);
            assert(self@.bandwidth == old(self)@.new_period().bandwidth);
        }
    }

    /// The end of block `now`: begins a new period where `now` is a multiple of the period's
    /// length, and changes nothing otherwise.
    pub fn finalize_block(&mut self, now: BlockNumber)
        requires
            old(self).wf(),
        ensures
            final(self).wf(),
            final(self)@ == old(self)@.finalize_block(now),
    {
        let boundary = if self.period == 0 {
            now == 0
        } else {
            now % self.period == 0
        };
        if boundary {
            self.last_period_block = now;
            proof {
                assert(self@.staking == old(self)@.staking);
                assert(self@.bandwidth == old(self)@.bandwidth);
            }
            self.init_stake_new_period();
        }
    }

    /// The hook that the runtime calls once at the end of each block.
    pub fn on_finalize(&mut self, n: BlockNumber)
        requires
            old(self).wf(),
        ensures
            final(self).wf(),
            final(self)@ == old(self)@.finalize_block(n),
    {
        self.finalize_block(n);
    }
}

} // verus!
