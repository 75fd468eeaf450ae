//! The binding of EVM addresses to accounts.
//!
//! An account claims an EVM address by a signature that the address's key gave over the
//! account's own bytes. An address that nobody has claimed stands for an account derived
//! from the address alone.

use vstd::prelude::*;
use crate::primitives::{AccountId, EcdsaSignature, EvmAddress};
use crate::storage::StorageMap;

verus! {

/// Why a claim was refused.
#[derive(Clone, Copy, Debug, PartialEq, Eq)]
pub enum Error {
    /// The account has an address already.
    AccountIdHasMapped,
    /// The address belongs to an account already.
    EthAddressHasMapped,
    /// No key can be recovered from the signature.
    BadSignature,
    /// The signature was given by another address.
    InvalidSignature,
    /// The account is still referred to. A runtime may give this reason; no operation of
    /// this crate does.
    NonZeroRefCount,
    /// The account still has a reserved balance. A runtime may give this reason; no
    /// operation of this crate does.
    StillHasActiveReserved,
}

/// Why a claim failed: by the pallet's own rules, or in the merge of the balances.
#[derive(Debug, PartialEq, Eq)]
pub enum ClaimError<E> {
    /// The pallet refused the claim.
    Module(Error),
    /// The runtime could not merge the balances of the address's account into the claimant.
    Merge(E),
}

/// The part of a runtime that moves all that one account has to another, or nothing where
/// it cannot move all.
///
/// The pallet is proved against the clause below, so an implementation has to meet it.
pub trait MergeAccount: Sized {
    /// The failure of a merge.
    type DispatchError;

    /// What merging `source` into `dest` returns.
    spec fn merge_outcome(&self, source: AccountId, dest: AccountId) -> Result<
        (),
        Self::DispatchError,
    >;

    /// The runtime after `source` was merged into `dest`.
    spec fn after_merge(&self, source: AccountId, dest: AccountId) -> Self;

    /// Moves all that `source` has to `dest`. A merge that fails changes nothing.
    fn merge_account(&mut self, source: &AccountId, dest: &AccountId) -> (r: Result<
        (),
        Self::DispatchError,
    >)
        ensures
            r == old(self).merge_outcome(*source, *dest),
            *final(self) == old(self).after_merge(*source, *dest),
            r is Err ==> *final(self) == *old(self),
    ;
}

/// The runtime that hosts the pallet.
///
/// The pallet is proved against the clause below, so an implementation has to meet it.
pub trait Config: MergeAccount {
    /// Whether the runtime knows the account `who`.
    spec fn known(&self, who: AccountId) -> bool;

    /// Whether the runtime knows the account `who`.
    fn account_exists(&self, who: &AccountId) -> (known: bool)
        ensures
            known == self.known(*who),
    ;
}

/// The last 20 bytes of a 32-byte digest, which make an address.
pub open spec fn digest_address(digest: Seq<u8>) -> Seq<u8> {
    digest.subrange(12, 32)
}

/// The address whose key gave `signature` over the wallet's message for `what` and
/// `extra`; nothing where no key can be recovered.
pub open spec fn recovered_address(signature: Seq<u8>, what: Seq<u8>, extra: Seq<u8>) -> Option<
    Seq<u8>,
> {
    match crate::crypto::secp256k1_recovered_key(
        signature,
        crate::crypto::keccak_256_digest(crate::encoding::signable_message(what, extra)),
    ) {
        Some(key) => Some(digest_address(crate::crypto::keccak_256_digest(key))),
        None => None,
    }
}

/// The address of the secret key `secret`; nothing where `secret` is no valid key.
pub open spec fn secret_address(secret: Seq<u8>) -> Option<Seq<u8>> {
    match crate::crypto::secp256k1_public_key(secret) {
        Some(key) => Some(digest_address(crate::crypto::keccak_256_digest(key.subrange(1, 65)))),
        None => None,
    }
}

/// The signature that `secret` gives over the wallet's message for the hex of `what`, and
/// `extra`: `r` and `s`, then the recovery id; nothing where `secret` is no valid key.
pub open spec fn secret_signature(secret: Seq<u8>, what: Seq<u8>, extra: Seq<u8>) -> Option<
    Seq<u8>,
> {
    match crate::crypto::secp256k1_signature(
        crate::crypto::keccak_256_digest(
            crate::encoding::signable_message(crate::encoding::ascii_hex(what), extra),
        ),
        secret,
    ) {
        Some((bytes, recovery)) => Some(bytes.push(recovery)),
        None => None,
    }
}

/// The bytes of the account that stands for an unclaimed `address`: `evm:`, the address,
/// and eight zero bytes.
pub open spec fn derived_account_bytes(address: EvmAddress) -> Seq<u8> {
    seq![101u8, 118u8, 109u8, 58u8] + address.0@ + Seq::new(8, |i: int| 0u8)
}

/// The account that stands for an unclaimed `address`.
pub open spec fn derived_account(address: EvmAddress) -> AccountId {
    choose|who: AccountId| who.0@ == derived_account_bytes(address)
}

/// The bindings between addresses and accounts, in both directions.
pub struct Bindings {
    /// The account of each claimed address.
    pub accounts: Map<EvmAddress, AccountId>,
    /// The address of each account that claimed one.
    pub evm_addresses: Map<AccountId, EvmAddress>,
}

impl Bindings {
    /// The two maps are each other's inverse.
    pub open spec fn wf(self) -> bool {
        &&& forall|address: EvmAddress|
            (#[trigger] self.accounts.contains_key(address)) ==> self.evm_addresses.contains_key(
                self.accounts[address],
            ) && self.evm_addresses[self.accounts[address]] == address
        &&& forall|who: AccountId|
            (#[trigger] self.evm_addresses.contains_key(who)) ==> self.accounts.contains_key(
                self.evm_addresses[who],
            ) && self.accounts[self.evm_addresses[who]] == who
    }

    /// Whether `who` may claim `address`, given the bytes of the address that was recovered
    /// from its signature: each refusal with its reason, in the order in which they are
    /// tested.
    pub open spec fn admits(self, who: AccountId, address: EvmAddress, recovered: Option<
        Seq<u8>,
    >) -> Result<(), Error> {
        if self.evm_addresses.contains_key(who) {
            Err(Error::AccountIdHasMapped)
        } else if self.accounts.contains_key(address) {
            Err(Error::EthAddressHasMapped)
        } else {
            match recovered {
                None => Err(Error::BadSignature),
                Some(signer) => if signer == address.0@ {
                    Ok(())
                } else {
                    Err(Error::InvalidSignature)
                },
            }
        }
    }

    /// `address` bound to `who`.
    pub open spec fn claim(self, who: AccountId, address: EvmAddress) -> Bindings {
        Bindings {
            accounts: self.accounts.insert(address, who),
            evm_addresses: self.evm_addresses.insert(who, address),
        }
    }

    /// The account that `address` stands for: the one that claimed it, or else the one
    /// derived from it.
    pub open spec fn account_of(self, address: EvmAddress) -> AccountId {
        if self.accounts.contains_key(address) {
            self.accounts[address]
        } else {
            derived_account(address)
        }
    }
}

/// Whether no account occurs twice among `pairs`.
pub open spec fn distinct_accounts(pairs: Seq<(EvmAddress, AccountId)>) -> bool {
    forall|i: int, j: int|
        0 <= i < j < pairs.len() ==> #[trigger] pairs[i].1 != #[trigger] pairs[j].1
}

/// The bindings after each of `pairs` was claimed in turn.
pub open spec fn bindings_of(pairs: Seq<(EvmAddress, AccountId)>) -> Bindings
    decreases pairs.len(),
{
    if pairs.len() == 0 {
        Bindings { accounts: Map::empty(), evm_addresses: Map::empty() }
    } else {
        bindings_of(pairs.drop_last()).claim(pairs.last().1, pairs.last().0)
    }
}

/// A claim that the pallet admits keeps the two maps each other's inverse.
pub proof fn lemma_claim_keeps_wf(bindings: Bindings, who: AccountId, address: EvmAddress)
    requires
        bindings.wf(),
        !bindings.evm_addresses.contains_key(who),
        !bindings.accounts.contains_key(address),
    ensures
        bindings.claim(who, address).wf(),
        bindings.claim(who, address).account_of(address) == who,
{
    let after = bindings.claim(who, address);
    assert forall|a: EvmAddress| #[trigger] after.accounts.contains_key(a) implies
        after.evm_addresses.contains_key(after.accounts[a]) && after.evm_addresses[after.accounts[a]]
        == a by {
        if a != address {
            assert(bindings.accounts.contains_key(a));
        }
    }
    assert forall|w: AccountId| #[trigger] after.evm_addresses.contains_key(w) implies
        after.accounts.contains_key(after.evm_addresses[w]) && after.accounts[after.evm_addresses[w]]
        == w by {
        if w != who {
            assert(bindings.evm_addresses.contains_key(w));
        }
    }
}

/// The last 20 bytes of `digest` as an address.
pub fn address_from_digest(digest: &[u8; 32]) -> (address: EvmAddress)
    ensures
        address.0@ == digest_address(digest@),
{
    let mut bytes: [u8; 20] = [0u8; 20];
    let mut i: usize = 0;
    while i < 20
        invariant
            i <= 20,
            forall|j: int| 0 <= j < i ==> bytes@[j] == digest@[12 + j],
        decreases 20 - i,
    {
        bytes[i] = digest[12 + i];
        i += 1;
    }
    proof {
        assert(bytes@ =~= digest_address(digest@));
    }
    EvmAddress(bytes)
}

/// The bindings between EVM addresses and accounts.
pub struct Pallet {
    accounts: StorageMap<EvmAddress, AccountId>,
    evm_addresses: StorageMap<AccountId, EvmAddress>,
}

/// Gives the account that an EVM address stands for.
pub struct EvmAddressMapping;

impl EvmAddressMapping {
    /// The account that `address` stands for under the bindings of `pallet`: the account
    /// that claimed it, or else the account derived from it.
    pub fn into_account_id(pallet: &Pallet, address: EvmAddress) -> (who: AccountId)
        requires
            pallet.wf(),
        ensures
            who == pallet@.account_of(address),
    {
        match pallet.accounts.get(&address) {
            Some(claimant) => claimant,
            None => Self::derive(address),
        }
    }

    /// The account derived from `address`: `evm:`, the address, and eight zero bytes.
    pub fn derive(address: EvmAddress) -> (who: AccountId)
        ensures
            who.0@ == derived_account_bytes(address),
            who == derived_account(address),
    {
        let mut data: [u8; 32] = [0u8; 32];
        data[0] = 101;
        data[1] = 118;
        data[2] = 109;
        data[3] = 58;
        let mut i: usize = 0;
        while i < 20
            invariant
                i <= 20,
                data@[0] == 101u8,
                data@[1] == 118u8,
                data@[2] == 109u8,
                data@[3] == 58u8,
                forall|j: int| 0 <= j < i ==> data@[4 + j] == address.0@[j],
                forall|j: int| 24 <= j < 32 ==> data@[j] == 0u8,
            decreases 20 - i,
        {
            data[4 + i] = address.0[i];
            i += 1;
        }
        let who = AccountId(data);
        proof {
            assert(who.0@ =~= derived_account_bytes(address));
            let chosen = derived_account(address);
            assert(chosen.0@ == derived_account_bytes(address));
            assert(chosen.0 =~= who.0);
        }
        who
    }
}

impl Pallet {
    /// The bindings that the pallet holds.
    pub closed spec fn view(&self) -> Bindings {
        Bindings { accounts: self.accounts@, evm_addresses: self.evm_addresses@ }
    }

    /// The stores are sound.
    pub closed spec fn stored(&self) -> bool {
        self.accounts.wf() && self.evm_addresses.wf()
    }

    /// The stores are sound and the two maps are each other's inverse.
    pub open spec fn wf(&self) -> bool {
        self.stored() && self@.wf()
    }

    /// A pallet without bindings.
    pub fn new() -> (pallet: Self)
        ensures
            pallet.wf(),
            pallet@.accounts == Map::<EvmAddress, AccountId>::empty(),
            pallet@.evm_addresses == Map::<AccountId, EvmAddress>::empty(),
    {
        Pallet { accounts: StorageMap::new(), evm_addresses: StorageMap::new() }
    }

    /// The claimed addresses, each with the account that claimed it.
    pub fn bindings(&self) -> (list: Vec<(EvmAddress, AccountId)>)
        requires
            self.wf(),
        ensures
            crate::storage::distinct_keys(list@),
            crate::storage::map_of(list@) == self@.accounts,
    {
        self.accounts.to_vec()
    }

    /// The pallet in which each of `pairs` is bound, as [`Self::bindings`] lists them.
    ///
    /// Gives nothing where an address or an account occurs twice among `pairs`.
    pub fn restore(pairs: &[(EvmAddress, AccountId)]) -> (r: Option<Self>)
        ensures
            r is Some <==> crate::storage::distinct_keys(pairs@) && distinct_accounts(pairs@),
            r matches Some(pallet) ==> pallet.wf() && pallet@ == bindings_of(pairs@)
                && pallet@.accounts == crate::storage::map_of(pairs@),
    {
        let mut pallet = Pallet::new();
        let mut i: usize = 0;
        proof {
            assert(pallet@.accounts == Map::<EvmAddress, AccountId>::empty());
            assert(crate::storage::map_of(pairs@.take(0)) =~= Map::<EvmAddress, AccountId>::empty());
            assert(pallet@ == bindings_of(pairs@.take(0)));
        }
        while i < pairs.len()
            invariant
                i <= pairs@.len(),
                pallet.wf(),
                pallet@ == bindings_of(pairs@.take(i as int)),
                pallet@.accounts == crate::storage::map_of(pairs@.take(i as int)),
                crate::storage::distinct_keys(pairs@.take(i as int)),
                distinct_accounts(pairs@.take(i as int)),
                forall|who: AccountId| #[trigger]
                    pallet@.evm_addresses.contains_key(who) ==> exists|j: int|
                        0 <= j < i && #[trigger] pairs@[j].1 == who,
                forall|j: int|
                    0 <= j < i ==> pallet@.evm_addresses.contains_key(#[trigger] pairs@[j].1),
            decreases pairs@.len() - i,
        {
            let (address, who) = pairs[i];
            let ghost before = pairs@.take(i as int);
            proof {
                assert(pairs@.take(i + 1) =~= before.push(pairs@[i as int]));
                assert(pairs@.take(i + 1).drop_last() =~= before);
            }
            if pallet.accounts.contains_key(&address) {
                proof {
                    let at = crate::storage::position_of(before, address);
                    assert(pairs@[at].0 == pairs@[i as int].0);
                }
                return None;
            }
            if pallet.evm_addresses.contains_key(&who) {
                proof {
                    let at = choose|j: int| 0 <= j < i && #[trigger] pairs@[j].1 == who;
                    assert(pairs@[at].1 == pairs@[i as int].1);
                }
                return None;
            }
            proof {
                crate::storage::lemma_map_of_push(before, address, who);
                let grown = pairs@.take(i + 1);
                assert forall|a: int, b: int| 0 <= a < b < grown.len() implies #[trigger] grown[a].1
                    != #[trigger] grown[b].1 by {
                    if b < i {
                        assert(before[a].1 != before[b].1);
                    } else {
                        assert(pallet@.evm_addresses.contains_key(pairs@[a].1));
                    }
                }
            }
            pallet.bind(who, address);
            i += 1;
        }
        proof {
            assert(pairs@.take(pairs@.len() as int) =~= pairs@);
        }
        Some(pallet)
    }

    /// The account that claimed `address`, if any.
    pub fn accounts(&self, address: &EvmAddress) -> (who: Option<AccountId>)
        requires
            self.wf(),
        ensures
            who == if self@.accounts.contains_key(*address) {
                Some(self@.accounts[*address])
            } else {
                None
            },
    {
        self.accounts.get(address)
    }

    /// The address that `who` claimed, if any.
    pub fn evm_addresses(&self, who: &AccountId) -> (address: Option<EvmAddress>)
        requires
            self.wf(),
        ensures
            address == if self@.evm_addresses.contains_key(*who) {
                Some(self@.evm_addresses[*who])
            } else {
                None
            },
    {
        self.evm_addresses.get(who)
    }

    /// Whether `who` may claim `address`, given the address that was recovered from its
    /// signature.
    pub fn check_claim(&self, who: &AccountId, address: &EvmAddress, recovered: Option<
        EvmAddress,
    >) -> (r: Result<(), Error>)
        requires
            self.wf(),
        ensures
            r == self@.admits(
                *who,
                *address,
                match recovered {
                    Some(signer) => Some(signer.0@),
                    None => None,
                },
            ),
    {
        if self.evm_addresses.contains_key(who) {
            return Err(Error::AccountIdHasMapped);
        }
        if self.accounts.contains_key(address) {
            return Err(Error::EthAddressHasMapped);
        }
        match recovered {
            None => Err(Error::BadSignature),
            Some(signer) => {
                if crate::primitives::StorageKey::same(&signer, address) {
                    Ok(())
                } else {
                    proof {
                        if signer.0@ == address.0@ {
                            assert(signer.0 =~= address.0);
                        }
                    }
                    Err(Error::InvalidSignature)
                }
            },
        }
    }

    /// Binds `address` to `who`, neither of which is bound yet.
    pub fn bind(&mut self, who: AccountId, address: EvmAddress)
        requires
            old(self).wf(),
            !old(self)@.evm_addresses.contains_key(who),
            !old(self)@.accounts.contains_key(address),
        ensures
            final(self).wf(),
            final(self)@ == old(self)@.claim(who, address),
    {
        self.accounts.insert(address, who);
        self.evm_addresses.insert(who, address);
        proof {
            assert(self@.accounts == old(self)@.accounts.insert(address, who));
            assert(self@.evm_addresses == old(self)@.evm_addresses.insert(who, address));
            lemma_claim_keeps_wf(old(self)@, who, address);
        }
    }

    /// Binds `eth_address` to `who`, on a signature that the address's key gave over the
    /// hex of the encoded account.
    ///
    /// The claim is refused where `who` or `eth_address` is bound already, where no key can
    /// be recovered from the signature, or where the signature is that of another address.
    /// Where the runtime knows the account derived from the address, all that it has is
    /// merged into `who` first, and a failed merge fails the claim. A refused or failed
    /// claim binds nothing and leaves the runtime as it was.
    pub fn claim_account<T: Config>(
        &mut self,
        runtime: &mut T,
        who: AccountId,
        eth_address: EvmAddress,
        eth_signature: &EcdsaSignature,
    ) -> (r: Result<(), ClaimError<T::DispatchError>>)
        requires
            old(self).wf(),
        ensures
            final(self).wf(),
            r == match old(self)@.admits(
                who,
                eth_address,
                recovered_address(eth_signature@, crate::encoding::ascii_hex(who.0@), Seq::empty()),
            ) {
                Err(refusal) => Err::<(), ClaimError<T::DispatchError>>(ClaimError::Module(refusal)),
                Ok(_) => if old(runtime).known(derived_account(eth_address)) {
                    match old(runtime).merge_outcome(derived_account(eth_address), who) {
                        Ok(_) => Ok::<(), ClaimError<T::DispatchError>>(()),
                        Err(e) => Err::<(), ClaimError<T::DispatchError>>(ClaimError::Merge(e)),
                    }
                } else {
                    Ok::<(), ClaimError<T::DispatchError>>(())
                },
            },
            r is Ok ==> final(self)@ == old(self)@.claim(who, eth_address),
            r is Err ==> final(self)@ == old(self)@ && *final(runtime) == *old(runtime),
            *final(runtime) == if old(self)@.admits(
                who,
                eth_address,
                recovered_address(eth_signature@, crate::encoding::ascii_hex(who.0@), Seq::empty()),
            ) is Ok && old(runtime).known(derived_account(eth_address)) {
                old(runtime).after_merge(derived_account(eth_address), who)
            } else {
                *old(runtime)
            },
    {
        let bound = self.evm_addresses.contains_key(&who) || self.accounts.contains_key(
            &eth_address,
        );
        let recovered = if bound {
            None
        } else {
            let encoded = crate::crypto::encode_account(&who.0);
            let signed = crate::encoding::to_ascii_hex(encoded.as_slice());
            let no_extra: [u8; 0] = [];
            proof {
                assert(no_extra@ =~= Seq::<u8>::empty());
            }
            Self::eth_recover(eth_signature, signed.as_slice(), &no_extra)
        };
        match self.check_claim(&who, &eth_address, recovered) {
            Err(refusal) => {
                return Err(ClaimError::Module(refusal));
            },
            Ok(_) => {},
        }
        let account_id = EvmAddressMapping::into_account_id(self, eth_address);
        if runtime.account_exists(&account_id) {
            match runtime.merge_account(&account_id, &who) {
                Ok(_) => {},
                Err(e) => {
                    return Err(ClaimError::Merge(e));
                },
            }
        }
        self.bind(who, eth_address);
        Ok(())
    }

    /// Builds the message that a wallet's `personal_sign` signs over `what` and `extra`.
    pub fn ethereum_signable_message(what: &[u8], extra: &[u8]) -> (message: Vec<u8>)
        ensures
            message@ == crate::encoding::signable_message(what@, extra@),
    {
        let header: [u8; 26] = [
            25, 69, 116, 104, 101, 114, 101, 117, 109, 32, 83, 105, 103, 110, 101, 100, 32, 77,
            101, 115, 115, 97, 103, 101, 58, 10,
        ];
        let tag: [u8; 9] = [98, 101, 105, 110, 32, 101, 118, 109, 58];
        proof {
            assert(header@ =~= crate::encoding::signed_message_header());
            assert(tag@ =~= crate::encoding::binding_tag());
        }
        let length: u128 = 9 + what.len() as u128 + extra.len() as u128;
        let digits = crate::encoding::decimal_digits(length);
        let mut message: Vec<u8> = Vec::new();
        message.extend_from_slice(&header);
        message.extend_from_slice(digits.as_slice());
        message.extend_from_slice(&tag);
        message.extend_from_slice(what);
        message.extend_from_slice(extra);
        message
    }

    /// Recovers the address whose key gave the signature `s` over the message that a
    /// wallet's `personal_sign` signs for `what` and `extra`.
    pub fn eth_recover(s: &EcdsaSignature, what: &[u8], extra: &[u8]) -> (address: Option<
        EvmAddress,
    >)
        ensures
            match address {
                Some(signer) => recovered_address(s@, what@, extra@) == Some(signer.0@),
                None => recovered_address(s@, what@, extra@) is None,
            },
    {
        let message = Self::ethereum_signable_message(what, extra);
        let digest = crate::crypto::keccak_256(message.as_slice());
        match crate::crypto::secp256k1_ecdsa_recover(s, &digest) {
            Some(key) => {
                let hashed = crate::crypto::keccak_256(&key);
                Some(address_from_digest(&hashed))
            },
            None => None,
        }
    }

    /// The public key of `secret`, in full with its leading tag; nothing where `secret`
    /// is no valid key.
    pub fn eth_public(secret: &[u8; 32]) -> (key: Option<[u8; 65]>)
        ensures
            match key {
                Some(bytes) => crate::crypto::secp256k1_public_key(secret@) == Some(bytes@),
                None => crate::crypto::secp256k1_public_key(secret@) is None,
            },
    {
        crate::crypto::public_key_of(secret)
    }

    /// The address of `secret`: the last 20 bytes of the digest of its public key without
    /// the tag; nothing where `secret` is no valid key.
    pub fn eth_address(secret: &[u8; 32]) -> (address: Option<EvmAddress>)
        ensures
            match address {
                Some(own) => secret_address(secret@) == Some(own.0@),
                None => secret_address(secret@) is None,
            },
    {
        match Self::eth_public(secret) {
            Some(key) => {
                let digest = crate::crypto::keccak_256(vstd::slice::slice_subrange(&key, 1, 65));
                Some(address_from_digest(&digest))
            },
            None => None,
        }
    }

    /// Signs with `secret` the message that a wallet's `personal_sign` signs for the hex of
    /// `what`, and `extra`; nothing where `secret` is no valid key.
    pub fn eth_sign(secret: &[u8; 32], what: &[u8], extra: &[u8]) -> (signature: Option<
        EcdsaSignature,
    >)
        ensures
            match signature {
                Some(bytes) => secret_signature(secret@, what@, extra@) == Some(bytes@),
                None => secret_signature(secret@, what@, extra@) is None,
            },
    {
        let hex = crate::encoding::to_ascii_hex(what);
        let message = Self::ethereum_signable_message(hex.as_slice(), extra);
        let digest = crate::crypto::keccak_256(message.as_slice());
        match crate::crypto::sign_digest(&digest, secret) {
            Some((bytes, recovery)) => Some(Self::signature_from_parts(&bytes, recovery)),
            None => None,
        }
    }

    /// The 65-byte signature made of `r` and `s` in `bytes` and of the recovery id.
    pub fn signature_from_parts(bytes: &[u8; 64], recovery: u8) -> (signature: EcdsaSignature)
        ensures
            signature@ == bytes@.push(recovery),
    {
        let mut r: [u8; 65] = [0u8; 65];
        let mut i: usize = 0;
        while i < 64
            invariant
                i <= 64,
                forall|j: int| 0 <= j < i ==> r@[j] == bytes@[j],
            decreases 64 - i,
        {
            r[i] = bytes[i];
            i += 1;
        }
        r[64] = recovery;
        proof {
            assert(r@ =~= bytes@.push(recovery));
        }
        r
    }
}

} // verus!
