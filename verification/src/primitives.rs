//! Plain value types shared by the whole crate.

use vstd::prelude::*;

verus! {

/// Amounts of currency, and amounts of bandwidth, which are counted in the same unit.
pub type Balance = u128;

/// Height of a block in the chain.
pub type BlockNumber = u32;

/// A 65-byte recoverable ECDSA signature: `r`, `s`, then the recovery id.
pub type EcdsaSignature = [u8; 65];

/// A ledger account, named by its 32 raw bytes.
#[derive(Clone, Copy, Debug, PartialEq, Eq)]
pub struct AccountId(pub [u8; 32]);

/// A 20-byte EVM address.
#[derive(Clone, Copy, Debug, PartialEq, Eq)]
pub struct EvmAddress(pub [u8; 20]);

/// Keys of a [`crate::storage::StorageMap`]: values with a decidable equality that
/// agrees with mathematical equality.
pub trait StorageKey: Copy {
    /// Whether the two keys are the same value.
    fn same(&self, other: &Self) -> (r: bool)
        ensures
            r == (*self == *other),
    ;
}

impl StorageKey for AccountId {
    fn same(&self, other: &Self) -> (r: bool) {
        let mut i: usize = 0;
        while i < 32
            invariant
                i <= 32,
                forall|j: int| 0 <= j < i ==> self.0[j] == other.0[j],
            decreases 32 - i,
        {
            if self.0[i] != other.0[i] {
                return false;
            }
            i += 1;
        }
        proof {
            assert(self.0 =~= other.0);
        }
        true
    }
}

impl StorageKey for EvmAddress {
    fn same(&self, other: &Self) -> (r: bool) {
        let mut i: usize = 0;
        while i < 20
            invariant
                i <= 20,
                forall|j: int| 0 <= j < i ==> self.0[j] == other.0[j],
            decreases 20 - i,
        {
            if self.0[i] != other.0[i] {
                return false;
            }
            i += 1;
        }
        proof {
            assert(self.0 =~= other.0);
        }
        true
    }
}

} // verus!
