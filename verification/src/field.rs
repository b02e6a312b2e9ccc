use ark_ff::PrimeField;
use vstd::arithmetic::div_mod::{lemma_fundamental_div_mod_converse};
use vstd::prelude::*;
use zkhash::fields::bn256::FpBN256;

verus! {

/// The prime modulus of the BN256 scalar field: every canonical field
/// element is a natural number strictly below this value.
pub open spec fn prime() -> nat {
    21888242871839275222246405745257275088548364400416034343698204186575808495617nat
}

/// 2^64, the radix in which a field element is stored limb by limb.
pub open spec fn limb_base() -> nat {
    0x1_0000_0000_0000_0000
}

/// An element of the BN256 scalar field, held as its canonical
/// representative in four little-endian 64-bit limbs.
///
/// All arithmetic on `Felt` goes through the field operations of this
/// module, which keep the representative canonical (`valid`).
#[derive(Clone, Copy, PartialEq, Eq, Structural, Debug)]
pub struct Felt {
    pub(crate) l0: u64,
    pub(crate) l1: u64,
    pub(crate) l2: u64,
    pub(crate) l3: u64,
}

/// The values that a sequence of field elements stands for.
pub open spec fn vals(s: Seq<Felt>) -> Seq<nat> {
    s.map_values(|f: Felt| f.val())
}

/// Every element of the sequence is a canonical representative.
pub open spec fn all_valid(s: Seq<Felt>) -> bool {
    forall|i: int| 0 <= i < s.len() ==> (#[trigger] s[i]).valid()
}

/// Addition in the field, on canonical values.
pub open spec fn add_mod(a: nat, b: nat) -> nat {
    ((a + b) as nat) % prime()
}

/// Multiplication in the field, on canonical values.
pub open spec fn mul_mod(a: nat, b: nat) -> nat {
    ((a * b) as nat) % prime()
}

impl Felt {
    /// The natural number this element stands for.
    pub closed spec fn val(self) -> nat {
        (self.l0 + limb_base() * (self.l1 + limb_base() * (self.l2 + limb_base() * self.l3))) as nat
    }

    /// A canonical representative: strictly below the field modulus.
    pub open spec fn valid(self) -> bool {
        self.val() < prime()
    }

    /// The additive identity of the field.
    pub fn zero() -> (r: Felt)
        ensures
            r.val() == 0,
            r.valid(),
    {
        Felt { l0: 0, l1: 0, l2: 0, l3: 0 }
    }

    /// The multiplicative identity of the field.
    pub fn one() -> (r: Felt)
        ensures
            r.val() == 1,
            r.valid(),
    {
        Felt { l0: 1, l1: 0, l2: 0, l3: 0 }
    }

    /// The field element standing for `n`.
    pub fn from_u64(n: u64) -> (r: Felt)
        ensures
            r.val() == n,
            r.valid(),
    {
        Felt { l0: n, l1: 0, l2: 0, l3: 0 }
    }

    /// The field element standing for 2^64.
    pub fn two_to_64() -> (r: Felt)
        ensures
            r.val() == limb_base(),
            r.valid(),
    {
        Felt { l0: 0, l1: 1, l2: 0, l3: 0 }
    }

    /// Relies on zkhash's BN256 scalar field type `FpBN256` and ark-ff's
    /// `from_bigint` / `into_bigint`: field addition of two canonical
    /// representatives yields the canonical representative of their sum
    /// modulo the prime.
    #[verifier::external_body]
    pub(crate) fn add(&self, other: &Felt) -> (r: Felt)
        requires
            self.valid(),
            other.valid(),
        ensures
            r.val() == add_mod(self.val(), other.val()),
            r.valid(),
    {
        let a = <FpBN256 as PrimeField>::from_bigint(ark_ff::BigInt([self.l0, self.l1, self.l2, self.l3])).unwrap();
        let b = <FpBN256 as PrimeField>::from_bigint(ark_ff::BigInt([other.l0, other.l1, other.l2, other.l3])).unwrap();
        let l = (a + b).into_bigint().0;
        Felt { l0: l[0], l1: l[1], l2: l[2], l3: l[3] }
    }

    /// Relies on zkhash's BN256 scalar field type `FpBN256` and ark-ff's
    /// `from_bigint` / `into_bigint`: field multiplication of two canonical
    /// representatives yields the canonical representative of their product
    /// modulo the prime.
    #[verifier::external_body]
    pub(crate) fn mul(&self, other: &Felt) -> (r: Felt)
        requires
            self.valid(),
            other.valid(),
        ensures
            r.val() == mul_mod(self.val(), other.val()),
            r.valid(),
    {
        let a = <FpBN256 as PrimeField>::from_bigint(ark_ff::BigInt([self.l0, self.l1, self.l2, self.l3])).unwrap();
        let b = <FpBN256 as PrimeField>::from_bigint(ark_ff::BigInt([other.l0, other.l1, other.l2, other.l3])).unwrap();
        let l = (a * b).into_bigint().0;
        Felt { l0: l[0], l1: l[1], l2: l[2], l3: l[3] }
    }
}

/// Two field elements with the same canonical value are the same element:
/// the limb representation of a natural number below 2^256 is unique.
pub proof fn lemma_val_injective(a: Felt, b: Felt)
    requires
        a.val() == b.val(),
    ensures
        a == b,
{
    lemma_limbs_from_val(a);
    lemma_limbs_from_val(b);
}

/// Each limb of a `Felt` is determined by its value.
proof fn lemma_limbs_from_val(a: Felt)
    ensures
        a.l0 == a.val() % limb_base(),
        a.l1 == (a.val() / limb_base()) % limb_base(),
        a.l2 == ((a.val() / limb_base()) / limb_base()) % limb_base(),
        a.l3 == ((a.val() / limb_base()) / limb_base()) / limb_base(),
{
    let b = limb_base() as int;
    let q2 = a.l2 + limb_base() * a.l3;
    let q1 = a.l1 + limb_base() * q2;
    lemma_fundamental_div_mod_converse(a.val() as int, b, q1 as int, a.l0 as int);
    lemma_fundamental_div_mod_converse(q1 as int, b, q2 as int, a.l1 as int);
    lemma_fundamental_div_mod_converse(q2 as int, b, a.l3 as int, a.l2 as int);
}

} // verus!
