//! The byte formats of account binding: lower-case hex, and the message that an EVM wallet
//! signs.

use vstd::prelude::*;

verus! {

/// The ASCII digit of a value below sixteen: `0` to `9`, then `a` to `f`.
pub open spec fn hex_digit(nibble: u8) -> u8 {
    if nibble < 10 {
        (48 + nibble) as u8
    } else {
        (87 + nibble) as u8
    }
}

/// `data` in lower-case hex, the high half of each byte first.
pub open spec fn ascii_hex(data: Seq<u8>) -> Seq<u8> {
    Seq::new(
        2 * data.len(),
        |i: int|
            if i % 2 == 0 {
                hex_digit(data[i / 2] / 16)
            } else {
                hex_digit(data[i / 2] % 16)
            },
    )
}

/// The decimal digits of `n` in ASCII, without leading zeros; none for zero.
pub open spec fn decimal(n: nat) -> Seq<u8>
    decreases n,
{
    if n == 0 {
        Seq::empty()
    } else {
        decimal(n / 10).push((48 + n % 10) as u8)
    }
}

/// The bytes `\x19Ethereum Signed Message:\n` that open every message signed by a wallet.
pub open spec fn signed_message_header() -> Seq<u8> {
    seq![
        25u8, 69u8, 116u8, 104u8, 101u8, 114u8, 101u8, 117u8, 109u8, 32u8, 83u8, 105u8, 103u8,
        110u8, 101u8, 100u8, 32u8, 77u8, 101u8, 115u8, 115u8, 97u8, 103u8, 101u8, 58u8, 10u8,
    ]
}

/// The bytes `bein evm:` that open the signed payload.
pub open spec fn binding_tag() -> Seq<u8> {
    seq![98u8, 101u8, 105u8, 110u8, 32u8, 101u8, 118u8, 109u8, 58u8]
}

/// The message that a wallet signs over `what` and `extra`: the header, the length of the
/// payload in decimal, and the payload, which is the tag, `what` and `extra`.
pub open spec fn signable_message(what: Seq<u8>, extra: Seq<u8>) -> Seq<u8> {
    signed_message_header() + decimal(binding_tag().len() + what.len() + extra.len())
        + binding_tag() + what + extra
}

fn hex_digit_of(nibble: u8) -> (digit: u8)
    requires
        nibble < 16,
    ensures
        digit == hex_digit(nibble),
{
    if nibble < 10 {
        48 + nibble
    } else {
        87 + nibble
    }
}

/// Converts `data` into lower-case ASCII hex, which is twice as long.
pub fn to_ascii_hex(data: &[u8]) -> (hex: Vec<u8>)
    ensures
        hex@ == ascii_hex(data@),
{
    let mut hex: Vec<u8> = Vec::new();
    let mut i: usize = 0;
    while i < data.len()
        invariant
            i <= data@.len(),
            hex@.len() == 2 * i,
            forall|j: int| 0 <= j < 2 * i ==> hex@[j] == ascii_hex(data@)[j],
        decreases data@.len() - i,
    {
        let byte: u8 = data[i];
        hex.push(hex_digit_of(byte / 16));
        hex.push(hex_digit_of(byte % 16));
        i += 1;
    }
    proof {
        assert(hex@ =~= ascii_hex(data@));
    }
    hex
}

/// The decimal digits of `n` in ASCII, the last digit first.
fn decimal_reversed(n: u128) -> (digits: Vec<u8>)
    ensures
        digits@.reverse() == decimal(n as nat),
{
    let mut digits: Vec<u8> = Vec::new();
    let mut rest: u128 = n;
    proof {
        assert(digits@.reverse() =~= Seq::<u8>::empty());
        assert(decimal(rest as nat) + digits@.reverse() =~= decimal(n as nat));
    }
    while rest > 0
        invariant
            decimal(rest as nat) + digits@.reverse() == decimal(n as nat),
        decreases rest,
    {
        let digit: u8 = 48 + (rest % 10) as u8;
        proof {
            let before = digits@;
            let after = digits@.push(digit);
            assert(after.reverse() =~= seq![digit] + before.reverse());
            assert(decimal((rest / 10) as nat) + after.reverse() =~= decimal(rest as nat)
                + before.reverse());
        }
        digits.push(digit);
        rest = rest / 10;
    }
    proof {
        assert(decimal(0) + digits@.reverse() =~= digits@.reverse());
    }
    digits
}

/// The decimal digits of `n` in ASCII, without leading zeros; none for zero.
pub fn decimal_digits(n: u128) -> (digits: Vec<u8>)
    ensures
        digits@ == decimal(n as nat),
{
    let reversed = decimal_reversed(n);
    let mut digits: Vec<u8> = Vec::new();
    let mut left: usize = reversed.len();
    while left > 0
        invariant
            left <= reversed@.len(),
            digits@ == reversed@.reverse().take(reversed@.len() - left),
        decreases left,
    {
        left -= 1;
        proof {
            let forward = reversed@.reverse();
            let done = reversed@.len() - left - 1;
            assert(forward[done] == reversed@[left as int]);
            assert(forward.take(done + 1) =~= forward.take(done).push(reversed@[left as int]));
        }
        digits.push(reversed[left]);
    }
    proof {
        assert(reversed@.reverse().take(reversed@.len() as int) =~= reversed@.reverse());
    }
    digits
}

} // verus!
