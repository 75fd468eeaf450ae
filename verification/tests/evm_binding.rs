use feeless::currency::{InsufficientFunds, MergeAccountEvm, ReservableCurrency};
use feeless::encoding::{decimal_digits, to_ascii_hex};
use feeless::evm_account::{
    address_from_digest, ClaimError, Config, Error, EvmAddressMapping, MergeAccount, Pallet,
};
use feeless::primitives::{AccountId, Balance, EcdsaSignature, EvmAddress};

/// A ledger in memory in which an account is known once it has a balance.
struct Ledger {
    accounts: Vec<(AccountId, Balance, Balance)>,
    frozen: bool,
    merges: usize,
}

impl Ledger {
    fn new() -> Self {
        Ledger { accounts: Vec::new(), frozen: false, merges: 0 }
    }

    fn with(mut self, who: AccountId, free: Balance, reserved: Balance) -> Self {
        self.accounts.push((who, free, reserved));
        self
    }

    fn slot(&mut self, who: &AccountId) -> usize {
        match self.accounts.iter().position(|a| a.0 == *who) {
            Some(i) => i,
            None => {
                self.accounts.push((*who, 0, 0));
                self.accounts.len() - 1
            }
        }
    }

    fn free_of(&self, who: &AccountId) -> Balance {
        self.accounts.iter().find(|a| a.0 == *who).map(|a| a.1).unwrap_or(0)
    }

    fn reserved_of(&self, who: &AccountId) -> Balance {
        self.accounts.iter().find(|a| a.0 == *who).map(|a| a.2).unwrap_or(0)
    }
}

impl ReservableCurrency for Ledger {
    type DispatchError = String;
    type Checkpoint = Vec<(AccountId, Balance, Balance)>;

    fn marked(_mark: &Self::Checkpoint) -> Self {
        unreachable!()
    }

    fn checkpoint(&mut self) -> Self::Checkpoint {
        self.accounts.clone()
    }

    fn rollback(&mut self, mark: Self::Checkpoint) {
        self.accounts = mark;
    }

    fn commit(&mut self, _mark: Self::Checkpoint) {}

    fn free(&self, who: AccountId) -> Balance {
        self.free_of(&who)
    }

    fn reserved(&self, who: AccountId) -> Balance {
        self.reserved_of(&who)
    }

    fn can_reserve(&self, who: AccountId, value: Balance) -> bool {
        self.free_of(&who) >= value
    }

    fn after_unreserve(&self, _who: AccountId, _value: Balance) -> Self {
        unreachable!()
    }

    fn transfer_outcome(&self, _source: AccountId, _dest: AccountId, _value: Balance) -> Result<(), String> {
        unreachable!()
    }

    fn free_balance(&self, who: &AccountId) -> Balance {
        self.free_of(who)
    }

    fn reserved_balance(&self, who: &AccountId) -> Balance {
        self.reserved_of(who)
    }

    fn reserve(&mut self, who: &AccountId, value: Balance) -> Result<(), InsufficientFunds> {
        let i = self.slot(who);
        if self.accounts[i].1 < value {
            return Err(InsufficientFunds);
        }
        self.accounts[i].1 -= value;
        self.accounts[i].2 += value;
        Ok(())
    }

    fn unreserve(&mut self, who: &AccountId, value: Balance) -> Balance {
        let i = self.slot(who);
        let moved = value.min(self.accounts[i].2);
        self.accounts[i].2 -= moved;
        self.accounts[i].1 += moved;
        value - moved
    }

    fn transfer(&mut self, source: &AccountId, dest: &AccountId, value: Balance) -> Result<(), String> {
        if self.frozen {
            return Err(String::from("frozen"));
        }
        let s = self.slot(source);
        if self.accounts[s].1 < value {
            return Err(String::from("balance too low"));
        }
        let d = self.slot(dest);
        self.accounts[s].1 -= value;
        self.accounts[d].1 += value;
        Ok(())
    }
}

impl MergeAccount for Ledger {
    type DispatchError = String;

    fn merge_outcome(&self, _source: AccountId, _dest: AccountId) -> Result<(), String> {
        unreachable!()
    }

    fn after_merge(&self, _source: AccountId, _dest: AccountId) -> Self {
        unreachable!()
    }

    fn merge_account(&mut self, source: &AccountId, dest: &AccountId) -> Result<(), String> {
        self.merges += 1;
        MergeAccountEvm::merge_account(self, source, dest)
    }
}

impl Config for Ledger {
    fn known(&self, _who: AccountId) -> bool {
        unreachable!()
    }

    fn account_exists(&self, who: &AccountId) -> bool {
        self.accounts.iter().any(|a| a.0 == *who)
    }
}

fn hex(text: &str) -> Vec<u8> {
    let digits: Vec<u8> = text
        .bytes()
        .map(|c| match c {
            b'0'..=b'9' => c - b'0',
            b'a'..=b'f' => c - b'a' + 10,
            _ => panic!("not a hex digit"),
        })
        .collect();
    digits.chunks(2).map(|pair| pair[0] * 16 + pair[1]).collect()
}

fn secret(last: u8) -> [u8; 32] {
    let mut key = [0u8; 32];
    key[31] = last;
    key
}

fn address_of(secret: &[u8; 32]) -> EvmAddress {
    Pallet::eth_address(secret).expect("a valid key")
}

fn claim_signature(secret: &[u8; 32], who: &AccountId) -> EcdsaSignature {
    Pallet::eth_sign(secret, &who.0, &[]).expect("a valid key")
}

fn alice() -> AccountId {
    AccountId([1u8; 32])
}

fn bob() -> AccountId {
    AccountId([2u8; 32])
}

#[test]
fn hex_is_lower_case_and_twice_as_long() {
    assert_eq!(to_ascii_hex(&[]), Vec::<u8>::new());
    assert_eq!(to_ascii_hex(&[0x00]), b"00".to_vec());
    assert_eq!(to_ascii_hex(&[0x00, 0xff, 0x1a, 0xa1, 0x09, 0x90]), b"00ff1aa10990".to_vec());
    assert_eq!(to_ascii_hex(&[0xde, 0xad, 0xbe, 0xef]), b"deadbeef".to_vec());
    let all: Vec<u8> = (0..=255u8).collect();
    let got = to_ascii_hex(&all);
    assert_eq!(got.len(), 512);
    assert_eq!(hex(std::str::from_utf8(&got).unwrap()), all);
}

#[test]
fn signable_message_has_header_length_tag_and_payload() {
    assert_eq!(
        Pallet::ethereum_signable_message(b"", b""),
        b"\x19Ethereum Signed Message:\n9bein evm:".to_vec()
    );
    assert_eq!(
        Pallet::ethereum_signable_message(b"a", b""),
        b"\x19Ethereum Signed Message:\n10bein evm:a".to_vec()
    );
    assert_eq!(
        Pallet::ethereum_signable_message(b"ab", b"cde"),
        b"\x19Ethereum Signed Message:\n14bein evm:abcde".to_vec()
    );
    let long = vec![b'x'; 91];
    let mut expected = b"\x19Ethereum Signed Message:\n100bein evm:".to_vec();
    expected.extend_from_slice(&long);
    assert_eq!(Pallet::ethereum_signable_message(&long, b""), expected);
    let account_hex = to_ascii_hex(&[7u8; 32]);
    let message = Pallet::ethereum_signable_message(&account_hex, b"");
    assert_eq!(&message[..28], b"\x19Ethereum Signed Message:\n73");
    assert_eq!(message.len(), 26 + 2 + 9 + 64);
}

#[test]
fn decimal_digits_have_no_leading_zero() {
    assert_eq!(decimal_digits(0), Vec::<u8>::new());
    assert_eq!(decimal_digits(7), b"7".to_vec());
    assert_eq!(decimal_digits(10), b"10".to_vec());
    assert_eq!(decimal_digits(1203), b"1203".to_vec());
    assert_eq!(
        decimal_digits(u128::MAX),
        b"340282366920938463463374607431768211455".to_vec()
    );
}

#[test]
fn address_is_the_tail_of_the_digest() {
    let mut digest = [0u8; 32];
    for (i, byte) in digest.iter_mut().enumerate() {
        *byte = i as u8;
    }
    let address = address_from_digest(&digest);
    assert_eq!(address.0.to_vec(), (12..32u8).collect::<Vec<u8>>());
}

#[test]
fn public_key_and_address_of_the_key_one() {
    let key = Pallet::eth_public(&secret(1)).expect("a valid key");
    let mut expected = vec![4u8];
    expected.extend(hex("79be667ef9dcbbac55a06295ce870b07029bfcdb2dce28d959f2815b16f81798"));
    expected.extend(hex("483ada7726a3c4655da4fbfc0e1108a8fd17b448a68554199c47d08ffb10d4b8"));
    assert_eq!(key.to_vec(), expected);
    assert_eq!(
        address_of(&secret(1)).0.to_vec(),
        hex("7e5f4552091a69125d5dfcb7b8c2659029395bdf")
    );
    assert_eq!(
        address_of(&secret(2)).0.to_vec(),
        hex("2b5ad5c4795c026514f8317c7a215e218dccd6cf")
    );
}

#[test]
fn invalid_secret_gives_nothing() {
    assert_eq!(Pallet::eth_public(&[0u8; 32]), None);
    assert_eq!(Pallet::eth_address(&[0u8; 32]), None);
    assert_eq!(Pallet::eth_sign(&[0u8; 32], b"abc", b""), None);
    assert_eq!(Pallet::eth_public(&[0xffu8; 32]), None);
}

#[test]
fn signature_recovers_to_the_signers_address() {
    let key = secret(1);
    let who = alice();
    let signature = Pallet::eth_sign(&key, &who.0, b"tail").expect("a valid key");
    assert_eq!(
        Pallet::eth_recover(&signature, &to_ascii_hex(&who.0), b"tail"),
        Some(address_of(&key))
    );
    assert_ne!(
        Pallet::eth_recover(&signature, &to_ascii_hex(&who.0), b"tale"),
        Some(address_of(&key))
    );
    assert_ne!(
        Pallet::eth_recover(&signature, &to_ascii_hex(&bob().0), b"tail"),
        Some(address_of(&key))
    );
    assert_eq!(Pallet::eth_sign(&key, &who.0, b"tail"), Some(signature));
    assert_ne!(Pallet::eth_sign(&secret(2), &who.0, b"tail"), Some(signature));
}

#[test]
fn signature_parts_are_joined_in_order() {
    let mut bytes = [0u8; 64];
    for (i, byte) in bytes.iter_mut().enumerate() {
        *byte = i as u8 + 1;
    }
    let signature = Pallet::signature_from_parts(&bytes, 200);
    assert_eq!(&signature[..64], &bytes[..]);
    assert_eq!(signature[64], 200);
}

#[test]
fn recovery_id_may_be_offset_by_27() {
    let key = secret(3);
    let who = alice();
    let mut signature = claim_signature(&key, &who);
    assert!(signature[64] < 2);
    signature[64] += 27;
    assert_eq!(
        Pallet::eth_recover(&signature, &to_ascii_hex(&who.0), &[]),
        Some(address_of(&key))
    );
}

#[test]
fn bad_recovery_id_recovers_nothing() {
    let who = alice();
    let mut signature = claim_signature(&secret(1), &who);
    signature[64] = 9;
    assert_eq!(Pallet::eth_recover(&signature, &to_ascii_hex(&who.0), &[]), None);
    let zero: EcdsaSignature = [0u8; 65];
    assert_eq!(Pallet::eth_recover(&zero, &to_ascii_hex(&who.0), &[]), None);
}

#[test]
fn unclaimed_address_stands_for_the_derived_account() {
    let pallet = Pallet::new();
    let address = EvmAddress([0xabu8; 20]);
    let mut expected = b"evm:".to_vec();
    expected.extend_from_slice(&[0xabu8; 20]);
    expected.extend_from_slice(&[0u8; 8]);
    assert_eq!(EvmAddressMapping::into_account_id(&pallet, address).0.to_vec(), expected);
    assert_eq!(EvmAddressMapping::derive(address).0.to_vec(), expected);
}

#[test]
fn claim_binds_both_ways() {
    let key = secret(1);
    let address = address_of(&key);
    let mut runtime = Ledger::new();
    let mut pallet = Pallet::new();
    assert_eq!(pallet.accounts(&address), None);
    assert_eq!(pallet.evm_addresses(&alice()), None);
    let signature = claim_signature(&key, &alice());
    assert_eq!(pallet.claim_account(&mut runtime, alice(), address, &signature), Ok(()));
    assert_eq!(pallet.accounts(&address), Some(alice()));
    assert_eq!(pallet.evm_addresses(&alice()), Some(address));
    assert_eq!(EvmAddressMapping::into_account_id(&pallet, address), alice());
    assert_eq!(runtime.merges, 0);
}

#[test]
fn claim_by_bound_account_is_refused() {
    let mut runtime = Ledger::new();
    let mut pallet = Pallet::new();
    let first = address_of(&secret(1));
    let second = address_of(&secret(2));
    assert_eq!(
        pallet.claim_account(&mut runtime, alice(), first, &claim_signature(&secret(1), &alice())),
        Ok(())
    );
    assert_eq!(
        pallet.claim_account(&mut runtime, alice(), second, &claim_signature(&secret(2), &alice())),
        Err(ClaimError::Module(Error::AccountIdHasMapped))
    );
    assert_eq!(pallet.accounts(&second), None);
    assert_eq!(pallet.evm_addresses(&alice()), Some(first));
}

#[test]
fn claim_of_bound_address_is_refused() {
    let mut runtime = Ledger::new();
    let mut pallet = Pallet::new();
    let address = address_of(&secret(1));
    assert_eq!(
        pallet.claim_account(&mut runtime, alice(), address, &claim_signature(&secret(1), &alice())),
        Ok(())
    );
    assert_eq!(
        pallet.claim_account(&mut runtime, bob(), address, &claim_signature(&secret(1), &bob())),
        Err(ClaimError::Module(Error::EthAddressHasMapped))
    );
    assert_eq!(pallet.accounts(&address), Some(alice()));
    assert_eq!(pallet.evm_addresses(&bob()), None);
}

#[test]
fn claim_with_unrecoverable_signature_is_refused() {
    let mut runtime = Ledger::new();
    let mut pallet = Pallet::new();
    let address = address_of(&secret(1));
    let mut signature = claim_signature(&secret(1), &alice());
    signature[64] = 9;
    assert_eq!(
        pallet.claim_account(&mut runtime, alice(), address, &signature),
        Err(ClaimError::Module(Error::BadSignature))
    );
    assert_eq!(pallet.accounts(&address), None);
    assert_eq!(pallet.evm_addresses(&alice()), None);
}

#[test]
fn claim_with_anothers_signature_is_refused() {
    let mut runtime = Ledger::new();
    let mut pallet = Pallet::new();
    let address = address_of(&secret(1));
    assert_eq!(
        pallet.claim_account(&mut runtime, alice(), address, &claim_signature(&secret(2), &alice())),
        Err(ClaimError::Module(Error::InvalidSignature))
    );
    assert_eq!(
        pallet.claim_account(&mut runtime, alice(), address, &claim_signature(&secret(1), &bob())),
        Err(ClaimError::Module(Error::InvalidSignature))
    );
    assert_eq!(pallet.accounts(&address), None);
    assert_eq!(pallet.evm_addresses(&alice()), None);
}

#[test]
fn check_claim_tests_in_order() {
    let mut pallet = Pallet::new();
    let first = EvmAddress([1u8; 20]);
    let second = EvmAddress([2u8; 20]);
    assert_eq!(pallet.check_claim(&alice(), &first, Some(first)), Ok(()));
    assert_eq!(pallet.check_claim(&alice(), &first, Some(second)), Err(Error::InvalidSignature));
    assert_eq!(pallet.check_claim(&alice(), &first, None), Err(Error::BadSignature));
    pallet.bind(alice(), first);
    assert_eq!(pallet.check_claim(&alice(), &first, None), Err(Error::AccountIdHasMapped));
    assert_eq!(pallet.check_claim(&alice(), &second, Some(second)), Err(Error::AccountIdHasMapped));
    assert_eq!(pallet.check_claim(&bob(), &first, Some(first)), Err(Error::EthAddressHasMapped));
    assert_eq!(pallet.check_claim(&bob(), &first, None), Err(Error::EthAddressHasMapped));
    assert_eq!(pallet.check_claim(&bob(), &second, Some(second)), Ok(()));
}

#[test]
fn claim_merges_the_derived_account() {
    let key = secret(1);
    let address = address_of(&key);
    let derived = EvmAddressMapping::derive(address);
    let mut runtime = Ledger::new().with(derived, 70, 30).with(alice(), 5, 0);
    let mut pallet = Pallet::new();
    assert_eq!(
        pallet.claim_account(&mut runtime, alice(), address, &claim_signature(&key, &alice())),
        Ok(())
    );
    assert_eq!(runtime.merges, 1);
    assert_eq!(runtime.free_of(&alice()), 105);
    assert_eq!(runtime.free_of(&derived), 0);
    assert_eq!(runtime.reserved_of(&derived), 0);
    assert_eq!(pallet.accounts(&address), Some(alice()));
}

#[test]
fn failed_merge_fails_the_claim() {
    let key = secret(1);
    let address = address_of(&key);
    let derived = EvmAddressMapping::derive(address);
    let mut runtime = Ledger::new().with(derived, 70, 30).with(alice(), 5, 0);
    runtime.frozen = true;
    let mut pallet = Pallet::new();
    assert_eq!(
        pallet.claim_account(&mut runtime, alice(), address, &claim_signature(&key, &alice())),
        Err(ClaimError::Merge(String::from("frozen")))
    );
    assert_eq!(pallet.accounts(&address), None);
    assert_eq!(pallet.evm_addresses(&alice()), None);
    assert_eq!(runtime.free_of(&alice()), 5);
    assert_eq!(runtime.free_of(&derived), 70);
    assert_eq!(runtime.reserved_of(&derived), 30);
    assert_eq!(runtime.merges, 1);
}

#[test]
fn failed_merge_leaves_every_balance_as_it_was() {
    let source = alice();
    let dest = bob();
    let mut runtime = Ledger::new().with(source, 70, 30).with(dest, 5, 0);
    runtime.frozen = true;
    assert_eq!(
        MergeAccountEvm::merge_account(&mut runtime, &source, &dest),
        Err(String::from("frozen"))
    );
    assert_eq!(runtime.free_of(&source), 70);
    assert_eq!(runtime.reserved_of(&source), 30);
    assert_eq!(runtime.free_of(&dest), 5);
    assert_eq!(runtime.reserved_of(&dest), 0);
    runtime.frozen = false;
    assert_eq!(MergeAccountEvm::merge_account(&mut runtime, &source, &dest), Ok(()));
    assert_eq!(runtime.free_of(&source), 0);
    assert_eq!(runtime.reserved_of(&source), 0);
    assert_eq!(runtime.free_of(&dest), 105);
}

#[test]
fn bindings_round_trip_through_their_list() {
    let first = EvmAddress([1u8; 20]);
    let second = EvmAddress([2u8; 20]);
    let mut pallet = Pallet::new();
    assert_eq!(pallet.bindings(), Vec::new());
    pallet.bind(alice(), first);
    pallet.bind(bob(), second);
    let list = pallet.bindings();
    assert_eq!(list, vec![(first, alice()), (second, bob())]);
    let again = Pallet::restore(&list).expect("sound bindings");
    assert_eq!(again.accounts(&first), Some(alice()));
    assert_eq!(again.accounts(&second), Some(bob()));
    assert_eq!(again.evm_addresses(&alice()), Some(first));
    assert_eq!(again.evm_addresses(&bob()), Some(second));
    assert_eq!(again.bindings(), list);
}

#[test]
fn restore_refuses_a_repeated_address_or_account() {
    let first = EvmAddress([1u8; 20]);
    let second = EvmAddress([2u8; 20]);
    assert!(Pallet::restore(&[]).is_some());
    assert!(Pallet::restore(&[(first, alice()), (second, bob())]).is_some());
    assert!(Pallet::restore(&[(first, alice()), (first, bob())]).is_none());
    assert!(Pallet::restore(&[(first, alice()), (second, alice())]).is_none());
    assert!(Pallet::restore(&[(first, alice()), (first, alice())]).is_none());
}
