//! The table of staking levels, and the rule that picks a level for a stake.

use vstd::prelude::*;
use crate::primitives::Balance;

verus! {

/// One staking level: the stake that qualifies for it and the bandwidth it grants per period.
#[derive(Clone, Copy, Debug, PartialEq, Eq)]
pub struct StakingLevel {
    pub bic_locked: Balance,
    pub bandwidth: Balance,
}

/// Whether `levels` has a level of index `rank` that a stake of `stake` reaches.
pub open spec fn qualifies(levels: Map<u8, StakingLevel>, stake: Balance, rank: int) -> bool {
    &&& 0 <= rank <= u8::MAX
    &&& levels.contains_key(rank as u8)
    &&& levels[rank as u8].bic_locked <= stake
}

/// The bandwidth of the first level that `stake` reaches, going down from index `rank`.
pub open spec fn resolve_from(levels: Map<u8, StakingLevel>, stake: Balance, rank: int) -> Option<
    Balance,
>
    decreases rank + 1,
{
    if rank < 0 {
        None
    } else if qualifies(levels, stake, rank) {
        Some(levels[rank as u8].bandwidth)
    } else {
        resolve_from(levels, stake, rank - 1)
    }
}

/// The bandwidth that a stake of `stake` earns: that of the level with the highest index
/// among those it reaches, and nothing where it reaches none.
pub open spec fn resolve(levels: Map<u8, StakingLevel>, stake: Balance) -> Option<Balance> {
    resolve_from(levels, stake, u8::MAX as int)
}

/// What the descending scan finds, said without the scan: nothing exactly when no level at
/// or below `rank` is reached, and otherwise the bandwidth of the reached level with the
/// highest index at or below `rank`.
pub proof fn lemma_resolve_from(levels: Map<u8, StakingLevel>, stake: Balance, rank: int)
    requires
        -1 <= rank <= u8::MAX,
    ensures
        resolve_from(levels, stake, rank) is None <==> forall|r: int|
            0 <= r <= rank ==> !qualifies(levels, stake, r),
        resolve_from(levels, stake, rank) matches Some(granted) ==> exists|r: int|
            0 <= r <= rank && #[trigger] qualifies(levels, stake, r) && granted == levels[r as u8].bandwidth
                && forall|above: int| r < above <= rank ==> !qualifies(levels, stake, above),
    decreases rank + 1,
{
    if rank >= 0 {
        lemma_resolve_from(levels, stake, rank - 1);
        if qualifies(levels, stake, rank) {
        } else {
            match resolve_from(levels, stake, rank - 1) {
                Some(granted) => {
                    let r = choose|r: int|
                        0 <= r <= rank - 1 && #[trigger] qualifies(levels, stake, r) && granted
                            == levels[r as u8].bandwidth && forall|above: int|
                            r < above <= rank - 1 ==> !qualifies(levels, stake, above);
                    assert(forall|above: int| r < above <= rank ==> !qualifies(levels, stake, above));
                },
                None => {},
            }
        }
    }
}

/// A stake that reaches the level of index `rank`, and none above it, earns that level's
/// bandwidth.
pub proof fn lemma_resolve_at(levels: Map<u8, StakingLevel>, stake: Balance, rank: int)
    requires
        qualifies(levels, stake, rank),
        forall|above: int| rank < above <= u8::MAX ==> !qualifies(levels, stake, above),
    ensures
        resolve(levels, stake) == Some(levels[rank as u8].bandwidth),
{
    lemma_resolve_from(levels, stake, u8::MAX as int);
    match resolve(levels, stake) {
        Some(granted) => {
            let r = choose|r: int|
                0 <= r <= u8::MAX && #[trigger] qualifies(levels, stake, r) && granted
                    == levels[r as u8].bandwidth && forall|above: int|
                    r < above <= u8::MAX ==> !qualifies(levels, stake, above);
            assert(r == rank);
        },
        None => {
            assert(!qualifies(levels, stake, rank));
        },
    }
}

/// Whether the indices of `list` rise from each entry to the next.
pub open spec fn rising(list: Seq<(u8, StakingLevel)>) -> bool {
    forall|i: int, j: int| 0 <= i < j < list.len() ==> #[trigger] list[i].0 < #[trigger] list[j].0
}

/// The staking levels, each under its index.
pub struct TierTable {
    slots: Vec<Option<StakingLevel>>,
}

impl TierTable {
    /// One slot for each index.
    pub closed spec fn wf(&self) -> bool {
        self.slots@.len() == u8::MAX + 1
    }

    /// The levels as a map from index to level.
    pub closed spec fn view(&self) -> Map<u8, StakingLevel> {
        Map::new(
            |rank: u8| rank < self.slots@.len() && self.slots@[rank as int] is Some,
            |rank: u8| self.slots@[rank as int].unwrap(),
        )
    }

    /// A table without levels.
    pub fn new() -> (table: Self)
        ensures
            table.wf(),
            table@ == Map::<u8, StakingLevel>::empty(),
    {
        let mut slots: Vec<Option<StakingLevel>> = Vec::new();
        let mut n: usize = 0;
        while n < 256
            invariant
                n <= 256,
                slots@.len() == n,
                forall|i: int| 0 <= i < n ==> slots@[i] is None,
            decreases 256 - n,
        {
            slots.push(None);
            n += 1;
        }
        let table = TierTable { slots };
        proof {
            assert(table@ =~= Map::<u8, StakingLevel>::empty());
        }
        table
    }

    /// Puts `level` under the index `rank`, in place of the level that was there, if any.
    pub fn add_tier(&mut self, rank: u8, level: StakingLevel)
        requires
            old(self).wf(),
        ensures
            final(self).wf(),
            final(self)@ == old(self)@.insert(rank, level),
    {
        let at: usize = rank as usize;
        self.slots[at] = Some(level);
        proof {
            assert(self@ =~= old(self)@.insert(rank, level));
        }
    }

    /// The level under the index `rank`, where there is one.
    pub fn get(&self, rank: u8) -> (level: Option<StakingLevel>)
        requires
            self.wf(),
        ensures
            level == if self@.contains_key(rank) {
                Some(self@[rank])
            } else {
                None
            },
    {
        let at: usize = rank as usize;
        self.slots[at]
    }

    /// The levels with their indices, in rising order of the index.
    pub fn to_vec(&self) -> (list: Vec<(u8, StakingLevel)>)
        requires
            self.wf(),
        ensures
            rising(list@),
            crate::storage::distinct_keys(list@),
            crate::storage::map_of(list@) == self@,
    {
        let mut list: Vec<(u8, StakingLevel)> = Vec::new();
        let mut at: usize = 0;
        proof {
            assert(crate::storage::map_of(list@) =~= self@.restrict(Set::new(|k: u8| k < 0)));
        }
        while at < 256
            invariant
                self.wf(),
                at <= 256,
                rising(list@),
                forall|i: int| 0 <= i < list@.len() ==> (#[trigger] list@[i]).0 < at,
                crate::storage::distinct_keys(list@),
                crate::storage::map_of(list@) == self@.restrict(Set::new(|k: u8| k < at)),
            decreases 256 - at,
        {
            let rank: u8 = at as u8;
            match self.slots[at] {
                Some(level) => {
                    proof {
                        if crate::storage::has_key(list@, rank) {
                            assert(crate::storage::map_of(list@).contains_key(rank));
                        }
                        crate::storage::lemma_map_of_push(list@, rank, level);
                        assert(self@.restrict(Set::new(|k: u8| k < at)).insert(rank, level)
                            =~= self@.restrict(Set::new(|k: u8| k < at + 1)));
                    }
                    list.push((rank, level));
                },
                None => {
                    proof {
                        assert(self@.restrict(Set::new(|k: u8| k < at)) =~= self@.restrict(
                            Set::new(|k: u8| k < at + 1),
                        ));
                    }
                },
            }
            at += 1;
        }
        proof {
            assert(self@.restrict(Set::new(|k: u8| k < 256)) =~= self@);
        }
        list
    }

    /// The table that holds `pairs`, where no index occurs twice among them.
    pub fn from_pairs(pairs: &[(u8, StakingLevel)]) -> (r: Option<Self>)
        ensures
            r is Some <==> crate::storage::distinct_keys(pairs@),
            r matches Some(table) ==> table.wf() && table@ == crate::storage::map_of(pairs@),
    {
        let mut table = TierTable::new();
        let mut i: usize = 0;
        proof {
            assert(crate::storage::map_of(pairs@.take(0)) =~= Map::<u8, StakingLevel>::empty());
        }
        while i < pairs.len()
            invariant
                i <= pairs@.len(),
                table.wf(),
                crate::storage::distinct_keys(pairs@.take(i as int)),
                table@ == crate::storage::map_of(pairs@.take(i as int)),
            decreases pairs@.len() - i,
        {
            let (rank, level) = pairs[i];
            proof {
                assert(pairs@.take(i + 1) =~= pairs@.take(i as int).push(pairs@[i as int]));
            }
            match table.get(rank) {
                Some(_) => {
                    proof {
                        let at = crate::storage::position_of(pairs@.take(i as int), rank);
                        assert(pairs@[at].0 == pairs@[i as int].0);
                    }
                    return None;
                },
                None => {
                    proof {
                        crate::storage::lemma_map_of_push(pairs@.take(i as int), rank, level);
                    }
                    table.add_tier(rank, level);
                },
            }
            i += 1;
        }
        proof {
            assert(pairs@.take(pairs@.len() as int) =~= pairs@);
        }
        Some(table)
    }

    /// The bandwidth that a stake of `stake` earns under this table.
    pub fn resolve(&self, stake: Balance) -> (granted: Option<Balance>)
        requires
            self.wf(),
        ensures
            granted == resolve(self@, stake),
    {
        let mut next: usize = 256;
        while next > 0
            invariant
                self.wf(),
                next <= 256,
                resolve(self@, stake) == resolve_from(self@, stake, next - 1),
            decreases next,
        {
            next -= 1;
            match self.slots[next] {
                Some(level) => {
                    if level.bic_locked <= stake {
                        return Some(level.bandwidth);
                    }
                },
                None => {},
            }
        }
        None
    }
}

} // verus!
