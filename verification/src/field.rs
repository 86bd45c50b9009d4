//! Elements of the scalar field of the BN254 curve.
//!
//! A [`FieldElement`] keeps the canonical little-endian encoding of a residue
//! modulo [`modulus`]. The arithmetic itself is done by `halo2curves`; every
//! call into it sits in one of the private functions at the end of this file,
//! whose contracts are taken on trust from the documentation of
//! `halo2curves::bn256::Fr`.
use halo2curves::bn256::Fr;
use vstd::prelude::*;

verus! {

/// The order of the field: the prime
/// `0x30644e72e131a029b85045b68181585d2833e84879b9709143e1f593f0000001`.
pub open spec fn modulus() -> nat {
    21888242871839275222246405745257275088548364400416034343698204186575808495617nat
}

/// The number that a sequence of bytes encodes, least significant byte first.
pub open spec fn le_value(s: Seq<u8>) -> nat
    decreases s.len(),
{
    if s.len() == 0 {
        0
    } else {
        s[0] as nat + 256 * le_value(s.skip(1))
    }
}

/// Sum of two residues.
pub open spec fn field_add(a: nat, b: nat) -> nat {
    (a + b) % modulus()
}

/// Difference of two residues.
pub open spec fn field_sub(a: nat, b: nat) -> nat {
    ((a + modulus() - b % modulus()) % (modulus() as int)) as nat
}

/// Product of two residues.
pub open spec fn field_mul(a: nat, b: nat) -> nat {
    (a * b) % modulus()
}

/// Additive inverse of a residue.
pub open spec fn field_neg(a: nat) -> nat {
    field_sub(0, a)
}

/// Two byte sequences of one length that encode the same number are equal.
pub proof fn lemma_le_value_injective(a: Seq<u8>, b: Seq<u8>)
    requires
        a.len() == b.len(),
        le_value(a) == le_value(b),
    ensures
        a == b,
    decreases a.len(),
{
    if a.len() > 0 {
        lemma_le_value_injective(a.skip(1), b.skip(1));
        assert(a =~= seq![a[0]] + a.skip(1));
        assert(b =~= seq![b[0]] + b.skip(1));
    }
    assert(a =~= b);
}

/// A residue modulo [`modulus`], held as 32 bytes, least significant first.
#[derive(Clone, Copy, Debug, PartialEq, Eq)]
pub struct FieldElement {
    bytes: [u8; 32],
}

impl FieldElement {
    /// The bytes held.
    pub closed spec fn repr(&self) -> Seq<u8> {
        self.bytes@
    }

    /// The residue that the element stands for.
    pub open spec fn view(&self) -> nat {
        le_value(self.repr())
    }

    /// The encoding is canonical: it is below the modulus.
    pub open spec fn wf(&self) -> bool {
        self@ < modulus()
    }

    /// The element with the given small value.
    pub fn from_u64(value: u64) -> (r: FieldElement)
        ensures
            r.wf(),
            r@ == value,
    {
        FieldElement { bytes: fr_from_u64(value) }
    }

    /// The additive identity.
    pub fn zero() -> (r: FieldElement)
        ensures
            r.wf(),
            r@ == 0,
    {
        FieldElement::from_u64(0)
    }

    /// The multiplicative identity.
    pub fn one() -> (r: FieldElement)
        ensures
            r.wf(),
            r@ == 1,
    {
        FieldElement::from_u64(1)
    }

    /// Reads a canonical encoding; `None` for 32 bytes that encode a number
    /// at or above the modulus.
    pub fn from_bytes(bytes: [u8; 32]) -> (r: Option<FieldElement>)
        ensures
            r is Some <==> le_value(bytes@) < modulus(),
            r matches Some(e) ==> e.wf() && e.repr() == bytes@,
    {
        if fr_is_canonical(&bytes) {
            Some(FieldElement { bytes })
        } else {
            None
        }
    }

    /// The canonical encoding.
    pub fn to_bytes(&self) -> (r: [u8; 32])
        ensures
            r@ == self.repr(),
    {
        self.bytes
    }

    /// Field addition.
    pub fn add(&self, rhs: &FieldElement) -> (r: FieldElement)
        requires
            self.wf(),
            rhs.wf(),
        ensures
            r.wf(),
            r@ == field_add(self@, rhs@),
    {
        FieldElement { bytes: fr_add(&self.bytes, &rhs.bytes) }
    }

    /// Field subtraction.
    pub fn sub(&self, rhs: &FieldElement) -> (r: FieldElement)
        requires
            self.wf(),
            rhs.wf(),
        ensures
            r.wf(),
            r@ == field_sub(self@, rhs@),
    {
        FieldElement { bytes: fr_sub(&self.bytes, &rhs.bytes) }
    }

    /// Field multiplication.
    pub fn mul(&self, rhs: &FieldElement) -> (r: FieldElement)
        requires
            self.wf(),
            rhs.wf(),
        ensures
            r.wf(),
            r@ == field_mul(self@, rhs@),
    {
        proof {
            lemma_field_mul_range(self@, rhs@);
        }
        FieldElement { bytes: fr_mul(&self.bytes, &rhs.bytes) }
    }

    /// Additive inverse.
    pub fn neg(&self) -> (r: FieldElement)
        requires
            self.wf(),
        ensures
            r.wf(),
            r@ == field_neg(self@),
    {
        FieldElement { bytes: fr_neg(&self.bytes) }
    }

    /// Whether two elements stand for the same residue.
    pub fn equals(&self, other: &FieldElement) -> (r: bool)
        ensures
            r == (self@ == other@),
    {
        let mut i: usize = 0;
        while i < 32
            invariant
                i <= 32,
                forall|k: int| 0 <= k < i ==> self.bytes@[k] == other.bytes@[k],
            decreases 32 - i,
        {
            if self.bytes[i] != other.bytes[i] {
                proof {
                    if self@ == other@ {
                        lemma_le_value_injective(self.bytes@, other.bytes@);
                    }
                }
                return false;
            }
            i += 1;
        }
        assert(self.bytes@ =~= other.bytes@);
        true
    }

    /// Whether the element is the additive identity.
    pub fn is_zero(&self) -> (r: bool)
        ensures
            r == (self@ == 0),
    {
        let zero = FieldElement::zero();
        self.equals(&zero)
    }
}

/// A product of residues, reduced, is below the modulus.
proof fn lemma_field_mul_range(a: nat, b: nat)
    ensures
        field_mul(a, b) < modulus(),
{
}

/// `Fr::from(u64)` followed by `Fr::to_bytes`: the canonical encoding of the
/// field element whose value is the given integer.
#[verifier::external_body]
fn fr_from_u64(value: u64) -> (r: [u8; 32])
    ensures
        le_value(r@) == value,
{
    Fr::from(value).to_bytes()
}

/// `Fr::from_bytes`, which accepts an encoding exactly when the number it
/// encodes is below the modulus.
#[verifier::external_body]
fn fr_is_canonical(bytes: &[u8; 32]) -> (r: bool)
    ensures
        r == (le_value(bytes@) < modulus()),
{
    Fr::from_bytes(bytes).is_some().into()
}

/// Addition of `Fr`, between `Fr::from_bytes` on canonical encodings and
/// `Fr::to_bytes`: the canonical encoding of the sum modulo the field order.
#[verifier::external_body]
fn fr_add(a: &[u8; 32], b: &[u8; 32]) -> (r: [u8; 32])
    requires
        le_value(a@) < modulus(),
        le_value(b@) < modulus(),
    ensures
        le_value(r@) == field_add(le_value(a@), le_value(b@)),
{
    (Fr::from_bytes(a).unwrap() + Fr::from_bytes(b).unwrap()).to_bytes()
}

/// Subtraction of `Fr`, between `Fr::from_bytes` on canonical encodings and
/// `Fr::to_bytes`: the canonical encoding of the difference modulo the field
/// order.
#[verifier::external_body]
fn fr_sub(a: &[u8; 32], b: &[u8; 32]) -> (r: [u8; 32])
    requires
        le_value(a@) < modulus(),
        le_value(b@) < modulus(),
    ensures
        le_value(r@) == field_sub(le_value(a@), le_value(b@)),
{
    (Fr::from_bytes(a).unwrap() - Fr::from_bytes(b).unwrap()).to_bytes()
}

/// Multiplication of `Fr`, between `Fr::from_bytes` on canonical encodings
/// and `Fr::to_bytes`: the canonical encoding of the product modulo the field
/// order.
#[verifier::external_body]
fn fr_mul(a: &[u8; 32], b: &[u8; 32]) -> (r: [u8; 32])
    requires
        le_value(a@) < modulus(),
        le_value(b@) < modulus(),
    ensures
        le_value(r@) == field_mul(le_value(a@), le_value(b@)),
{
    (Fr::from_bytes(a).unwrap() * Fr::from_bytes(b).unwrap()).to_bytes()
}

/// Negation of `Fr`, between `Fr::from_bytes` on a canonical encoding and
/// `Fr::to_bytes`: the canonical encoding of the additive inverse.
#[verifier::external_body]
fn fr_neg(a: &[u8; 32]) -> (r: [u8; 32])
    requires
        le_value(a@) < modulus(),
    ensures
        le_value(r@) == field_neg(le_value(a@)),
{
    (-Fr::from_bytes(a).unwrap()).to_bytes()
}

} // verus!
