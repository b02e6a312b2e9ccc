use core::str::FromStr;
use vstd::arithmetic::div_mod::{lemma_fundamental_div_mod, lemma_small_mod};
use vstd::prelude::*;

use crate::field::{prime, Felt};

verus! {

/// What can go wrong at the boundary: a string that is not a non-negative
/// decimal integer literal, or a Merkle path whose direction and sibling
/// sequences differ in length.
#[derive(Clone, Copy, PartialEq, Eq, Structural, Debug)]
pub enum Poseidon2Error {
    ParseError,
    LengthMismatch,
}

/// An ASCII decimal digit.
pub open spec fn is_dec_digit(c: char) -> bool {
    '0' <= c && c <= '9'
}

/// The numeric value of a decimal digit.
pub open spec fn digit_val(c: char) -> nat {
    (c as int - '0' as int) as nat
}

/// A valid non-negative decimal integer literal: non-empty, digits only
/// (so in particular no sign and no other characters).
pub open spec fn is_dec_string(s: Seq<char>) -> bool {
    s.len() > 0 && forall|i: int| 0 <= i < s.len() ==> is_dec_digit(#[trigger] s[i])
}

/// The natural number a sequence of decimal digits denotes.
pub open spec fn dec_value(s: Seq<char>) -> nat
    decreases s.len(),
{
    if s.len() == 0 {
        0
    } else {
        dec_value(s.drop_last()) * 10 + digit_val(s.last())
    }
}

/// The decimal digit standing for `d` (for `d < 10`).
pub open spec fn dec_digit(d: nat) -> char {
    if d == 0 {
        '0'
    } else if d == 1 {
        '1'
    } else if d == 2 {
        '2'
    } else if d == 3 {
        '3'
    } else if d == 4 {
        '4'
    } else if d == 5 {
        '5'
    } else if d == 6 {
        '6'
    } else if d == 7 {
        '7'
    } else if d == 8 {
        '8'
    } else {
        '9'
    }
}

/// The canonical decimal writing of `n`: no leading zero except for the
/// single digit `"0"` itself.
pub open spec fn dec_of(n: nat) -> Seq<char>
    decreases n,
{
    if n < 10 {
        seq![dec_digit(n)]
    } else {
        dec_of(n / 10).push(dec_digit(n % 10))
    }
}

/// Relies on num-bigint's `BigUint` decimal parser (`FromStr`), which
/// accepts every non-empty all-digit string, and on ark-ff's
/// `From<BigUint>` for zkhash's `FpBN256`, which reduces the integer
/// modulo the field prime to a canonical representative.
#[verifier::external_body]
fn decode_digits(s: &str) -> (r: Felt)
    requires
        is_dec_string(s@),
    ensures
        r.val() == dec_value(s@) % prime(),
        r.valid(),
{
    let big = num_bigint::BigUint::from_str(s).unwrap();
    let f: zkhash::fields::bn256::FpBN256 = big.into();
    let l = ark_ff::PrimeField::into_bigint(f).0;
    Felt { l0: l[0], l1: l[1], l2: l[2], l3: l[3] }
}

/// Relies on num-bigint's `BigUint::to_str_radix(10)`: the decimal digits
/// of the value, most significant first, with no leading zeros (and `"0"`
/// for zero).
#[verifier::external_body]
fn encode_value(x: &Felt) -> (r: String)
    ensures
        r@ == dec_of(x.val()),
{
    let mut bytes = [0u8; 32];
    for (i, l) in [x.l0, x.l1, x.l2, x.l3].iter().enumerate() {
        bytes[i * 8..(i + 1) * 8].copy_from_slice(&l.to_le_bytes());
    }
    num_bigint::BigUint::from_bytes_le(&bytes).to_str_radix(10)
}

/// Turns a field element back into its canonical decimal string.
pub fn encode_f(x: Felt) -> (r: String)
    ensures
        r@ == dec_of(x.val()),
{
    encode_value(&x)
}

/// Parses a non-negative decimal integer literal and reduces it modulo
/// the field prime. Values at or above the prime are accepted and reduced
/// silently; anything that is not a plain run of digits is rejected.
pub fn decode_f(x: String) -> (r: Result<Felt, Poseidon2Error>)
    ensures
        match r {
            Ok(f) => is_dec_string(x@) && f.val() == dec_value(x@) % prime() && f.valid(),
            Err(e) => !is_dec_string(x@) && e == Poseidon2Error::ParseError,
        },
{
    let s = x.as_str();
    let n = s.unicode_len();
    if n == 0 {
        return Err(Poseidon2Error::ParseError);
    }
    let mut i: usize = 0;
    while i < n
        invariant
            0 <= i <= n,
            n == s@.len(),
            x@ == s@,
            forall|k: int| 0 <= k < i ==> is_dec_digit(#[trigger] s@[k]),
        decreases n - i,
    {
        let c = s.get_char(i);
        if c < '0' || c > '9' {
            proof {
                assert(!is_dec_digit(s@[i as int]));
            }
            return Err(Poseidon2Error::ParseError);
        }
        i += 1;
    }
    Ok(decode_digits(s))
}

/// Reading a decimal writing back gives the number written: the digits of
/// `dec_of(n)` denote `n`.
pub proof fn lemma_dec_round_trip(n: nat)
    ensures
        dec_value(dec_of(n)) == n,
    decreases n,
{
    if n < 10 {
        assert(dec_of(n) =~= seq![dec_digit(n)]);
        assert(dec_of(n).drop_last() =~= Seq::<char>::empty());
        assert(dec_value(Seq::<char>::empty()) == 0);
        assert(dec_value(dec_of(n)) == dec_value(dec_of(n).drop_last()) * 10 + digit_val(
            dec_of(n).last(),
        ));
        assert(digit_val(dec_digit(n)) == n);
    } else {
        lemma_dec_round_trip(n / 10);
        assert(dec_of(n).drop_last() =~= dec_of(n / 10));
        assert(dec_of(n).last() == dec_digit(n % 10));
        assert(digit_val(dec_digit(n % 10)) == n % 10);
        lemma_fundamental_div_mod(n as int, 10);
    }
}

/// A decimal writing is always a valid decimal string.
pub proof fn lemma_dec_of_is_dec_string(n: nat)
    ensures
        is_dec_string(dec_of(n)),
    decreases n,
{
    if n < 10 {
    } else {
        lemma_dec_of_is_dec_string(n / 10);
    }
}

/// Codec round trip: the canonical decimal writing of any canonical field
/// element value parses back, and reduces to, that same value. Together
/// with the contracts of `encode_f` and `decode_f` this pins
/// `decode_f(encode_f(x)) == Ok(x)` for every valid `x`.
pub proof fn lemma_codec_round_trip(v: nat)
    requires
        v < prime(),
    ensures
        is_dec_string(dec_of(v)),
        dec_value(dec_of(v)) % prime() == v,
{
    lemma_dec_of_is_dec_string(v);
    lemma_dec_round_trip(v);
    lemma_small_mod(v, prime());
}

/// The decimal writing of a positive number never starts with a zero
/// digit (and zero itself is the single digit `"0"`), so `encode_f`
/// returns the canonical representative with no leading zeros.
pub proof fn lemma_dec_of_no_leading_zero(n: nat)
    requires
        n >= 1,
    ensures
        dec_of(n)[0] != '0',
    decreases n,
{
    if n >= 10 {
        lemma_dec_of_no_leading_zero(n / 10);
        lemma_dec_of_is_dec_string(n / 10);
        assert(dec_of(n)[0] == dec_of(n / 10)[0]);
    }
}

/// Codec round trip at the element level: by the contracts of `encode_f`
/// and `decode_f`, decoding the encoding of a canonical element `x`
/// yields some element `y` with `y.val() == dec_value(dec_of(x.val())) %
/// prime()`; that element is `x` itself.
pub proof fn lemma_decode_encode_identity(x: Felt, y: Felt)
    requires
        x.valid(),
        y.val() == dec_value(dec_of(x.val())) % prime(),
    ensures
        y == x,
{
    lemma_codec_round_trip(x.val());
    crate::field::lemma_val_injective(x, y);
}

} // verus!
