//! Elements of the scalar field of BN254, the field every circuit value lives in.
//!
//! An element is held as four little-endian 64-bit limbs of its canonical
//! representative (always below the modulus). The arithmetic itself is done by
//! `ark_bn254::Fr`.
use vstd::prelude::*;
use vstd::arithmetic::div_mod::*;
use vstd::arithmetic::power2::*;
use vstd::bits::*;

use ark_bn254::Fr;
use ark_ff::{BigInt, PrimeField};
use num_bigint::BigUint;

use crate::text::{chars_of, decimal, push_char, push_str};

verus! {

/// The decimal text of the field modulus.
pub const MODULUS: &'static str =
    "21888242871839275222246405745257275088548364400416034343698204186575808495617";

/// The field modulus `p`.
pub open spec fn modulus() -> nat {
    21888242871839275222246405745257275088548364400416034343698204186575808495617nat
}

/// The integer that four little-endian 64-bit limbs stand for.
pub open spec fn limbs_value(l0: u64, l1: u64, l2: u64, l3: u64) -> nat {
    l0 as nat + l1 as nat * 0x1_0000_0000_0000_0000nat + l2 as nat
        * 0x1_0000_0000_0000_0000_0000_0000_0000_0000nat + l3 as nat
        * 0x1_0000_0000_0000_0000_0000_0000_0000_0000_0000_0000_0000_0000nat
}

/// `v` reduced into `[0, p)` (Euclidean remainder, also for negative `v`).
pub open spec fn reduce(v: int) -> nat {
    (v % (modulus() as int)) as nat
}

/// Reducing a field element leaves it unchanged.
pub proof fn lemma_reduce_small_value(v: nat)
    requires
        v < modulus(),
    ensures
        reduce(v as int) == v,
{
    lemma_small_mod(v, modulus());
}

pub open spec fn field_add(a: nat, b: nat) -> nat {
    reduce((a + b) as int)
}

pub open spec fn field_sub(a: nat, b: nat) -> nat {
    reduce(a - b)
}

pub open spec fn field_mul(a: nat, b: nat) -> nat {
    reduce((a * b) as int)
}

pub open spec fn field_neg(a: nat) -> nat {
    reduce(-a)
}


pub open spec fn is_digit_or_separator(c: char) -> bool {
    ('0' <= c && c <= '9') || c == '_'
}

/// The digits of a decimal magnitude: at least one character, not starting with `_`, only ASCII
/// digits and `_` separators.
pub open spec fn valid_magnitude(u: Seq<char>) -> bool {
    &&& u.len() > 0
    &&& u[0] != '_'
    &&& forall|i: int| 0 <= i < u.len() ==> is_digit_or_separator(#[trigger] u[i])
}

/// The integer written by decimal digits, ignoring `_` separators.
pub open spec fn magnitude_value(u: Seq<char>) -> nat
    decreases u.len(),
{
    if u.len() == 0 {
        0
    } else if u.last() == '_' {
        magnitude_value(u.drop_last())
    } else {
        magnitude_value(u.drop_last()) * 10 + (u.last() as nat - 48) as nat
    }
}

/// A leading `-` marks a negative value; otherwise one leading `+` is dropped.
pub open spec fn split_sign(s: Seq<char>) -> (bool, Seq<char>) {
    if s.len() > 0 && s[0] == '-' {
        (true, s.drop_first())
    } else if s.len() > 0 && s[0] == '+' {
        (false, s.drop_first())
    } else {
        (false, s)
    }
}

/// The field element that a signed decimal text denotes, reduced modulo `p`; `None` for text
/// that is not a signed decimal integer.
pub open spec fn parsed_value(s: Seq<char>) -> Option<nat> {
    let (negative, u) = split_sign(s);
    if valid_magnitude(u) {
        Some(
            if negative {
                reduce(-(magnitude_value(u) as int))
            } else {
                reduce(magnitude_value(u) as int)
            },
        )
    } else {
        None
    }
}

proof fn lemma_reduce_step(acc: nat, v: nat, d: nat)
    requires
        acc == reduce(v as int),
    ensures
        field_add(field_mul(acc, 10), d) == reduce((v * 10 + d) as int),
{
    let p = modulus() as int;
    lemma_mul_mod_noop_left(v as int, 10, p);
    lemma_add_mod_noop((acc * 10) as int, d as int, p);
    lemma_mod_twice((acc * 10) as int, p);
    lemma_add_mod_noop((v * 10) as int, d as int, p);
}

proof fn lemma_reduce_neg(acc: nat, v: nat)
    requires
        acc == reduce(v as int),
    ensures
        field_neg(acc) == reduce(-(v as int)),
{
    let p = modulus() as int;
    lemma_sub_mod_noop(0, v as int, p);
    lemma_small_mod(0, p as nat);
}

/// The rendering of the `i`-th character of `s` when it is an ASCII digit.
fn digit_value(c: char) -> (d: u8)
    requires
        '0' <= c <= '9',
    ensures
        d as nat == c as nat - 48,
        d < 10,
{
    ((c as u32) - 48) as u8
}

/// An element of the BN254 scalar field.
#[derive(Debug, Clone, Copy, PartialEq, Eq, Structural)]
pub struct FieldElement {
    l0: u64,
    l1: u64,
    l2: u64,
    l3: u64,
}

impl View for FieldElement {
    type V = nat;

    closed spec fn view(&self) -> nat {
        limbs_value(self.l0, self.l1, self.l2, self.l3)
    }
}

/// `value < 2^bits`.
pub open spec fn fits_bits(value: nat, bits: nat) -> bool {
    value < pow2(bits)
}

proof fn lemma_limbs_lt(a0: u64, a1: u64, a2: u64, a3: u64, b0: u64, b1: u64, b2: u64, b3: u64)
    ensures
        a3 < b3 ==> limbs_value(a0, a1, a2, a3) < limbs_value(b0, b1, b2, b3),
        a3 == b3 && a2 < b2 ==> limbs_value(a0, a1, a2, a3) < limbs_value(b0, b1, b2, b3),
        a3 == b3 && a2 == b2 && a1 < b1 ==> limbs_value(a0, a1, a2, a3) < limbs_value(
            b0,
            b1,
            b2,
            b3,
        ),
        a3 == b3 && a2 == b2 && a1 == b1 ==> (limbs_value(a0, a1, a2, a3) < limbs_value(
            b0,
            b1,
            b2,
            b3,
        ) <==> a0 < b0),
{
}

/// Compares two limb quadruples as the integers they stand for.
fn limbs_less(a0: u64, a1: u64, a2: u64, a3: u64, b0: u64, b1: u64, b2: u64, b3: u64) -> (r: bool)
    ensures
        r == (limbs_value(a0, a1, a2, a3) < limbs_value(b0, b1, b2, b3)),
{
    proof {
        lemma_limbs_lt(a0, a1, a2, a3, b0, b1, b2, b3);
        lemma_limbs_lt(b0, b1, b2, b3, a0, a1, a2, a3);
    }
    if a3 != b3 {
        a3 < b3
    } else if a2 != b2 {
        a2 < b2
    } else if a1 != b1 {
        a1 < b1
    } else {
        a0 < b0
    }
}

impl FieldElement {
    #[verifier::type_invariant]
    spec fn canonical(self) -> bool {
        limbs_value(self.l0, self.l1, self.l2, self.l3) < modulus()
    }

    /// Every element is below the modulus.
    pub fn lemma_canonical(&self)
        ensures
            self@ < modulus(),
    {
        proof {
            use_type_invariant(self);
        }
    }

    pub fn zero() -> (r: FieldElement)
        ensures
            r@ == 0,
    {
        FieldElement { l0: 0, l1: 0, l2: 0, l3: 0 }
    }

    pub fn one() -> (r: FieldElement)
        ensures
            r@ == 1,
    {
        FieldElement { l0: 1, l1: 0, l2: 0, l3: 0 }
    }

    /// The element with the given little-endian limbs, when they stand for an integer below the
    /// modulus.
    pub fn from_canonical_limbs(limbs: [u64; 4]) -> (r: Option<FieldElement>)
        ensures
            r is Some <==> limbs_value(limbs[0], limbs[1], limbs[2], limbs[3]) < modulus(),
            r matches Some(fe) ==> fe@ == limbs_value(limbs[0], limbs[1], limbs[2], limbs[3]),
    {
        let fits = limbs_less(
            limbs[0],
            limbs[1],
            limbs[2],
            limbs[3],
            0x43e1f593f0000001u64,
            0x2833e84879b97091u64,
            0xb85045b68181585du64,
            0x30644e72e131a029u64,
        );
        if fits {
            Some(FieldElement { l0: limbs[0], l1: limbs[1], l2: limbs[2], l3: limbs[3] })
        } else {
            None
        }
    }

    /// The little-endian limbs of the canonical representative.
    pub fn limbs(&self) -> (r: [u64; 4])
        ensures
            limbs_value(r[0], r[1], r[2], r[3]) == self@,
    {
        [self.l0, self.l1, self.l2, self.l3]
    }

    pub fn from_u128(value: u128) -> (r: FieldElement)
        ensures
            r@ == value as nat,
    {
        let lo = (value % 0x1_0000_0000_0000_0000u128) as u64;
        let hi = (value / 0x1_0000_0000_0000_0000u128) as u64;
        assert(value == lo + hi * 0x1_0000_0000_0000_0000u128);
        FieldElement { l0: lo, l1: hi, l2: 0, l3: 0 }
    }

    /// `value` reduced modulo `p`.
    pub fn from_i128(value: i128) -> (r: FieldElement)
        ensures
            r@ == reduce(value as int),
    {
        if value >= 0 {
            let r = FieldElement::from_u128(value as u128);
            proof {
                lemma_small_mod(value as nat, modulus());
            }
            r
        } else {
            let magnitude: u128 = if value == i128::MIN {
                0x8000_0000_0000_0000_0000_0000_0000_0000u128
            } else {
                (-value) as u128
            };
            let m = FieldElement::from_u128(magnitude);
            let r = m.neg();
            r
        }
    }

    pub fn is_zero(&self) -> (r: bool)
        ensures
            r == (self@ == 0),
    {
        self.l0 == 0 && self.l1 == 0 && self.l2 == 0 && self.l3 == 0
    }

    pub fn is_one(&self) -> (r: bool)
        ensures
            r == (self@ == 1),
    {
        self.l0 == 1 && self.l1 == 0 && self.l2 == 0 && self.l3 == 0
    }

    /// Value equality (the same as `==`).
    pub fn equals(&self, other: &FieldElement) -> (r: bool)
        ensures
            r == (self@ == other@),
    {
        self.l0 == other.l0 && self.l1 == other.l1 && self.l2 == other.l2 && self.l3 == other.l3
    }

    /// Field addition (ark_bn254's `Fr + Fr`).
    #[verifier::external_body]
    pub fn add(self, rhs: FieldElement) -> (r: FieldElement)
        ensures
            r@ == field_add(self@, rhs@),
    {
        let a = Fr::new(BigInt::new([self.l0, self.l1, self.l2, self.l3]));
        let b = Fr::new(BigInt::new([rhs.l0, rhs.l1, rhs.l2, rhs.l3]));
        let limbs = (a + b).into_bigint().0;
        FieldElement { l0: limbs[0], l1: limbs[1], l2: limbs[2], l3: limbs[3] }
    }

    /// Field subtraction (ark_bn254's `Fr - Fr`).
    #[verifier::external_body]
    pub fn sub(self, rhs: FieldElement) -> (r: FieldElement)
        ensures
            r@ == field_sub(self@, rhs@),
    {
        let a = Fr::new(BigInt::new([self.l0, self.l1, self.l2, self.l3]));
        let b = Fr::new(BigInt::new([rhs.l0, rhs.l1, rhs.l2, rhs.l3]));
        let limbs = (a - b).into_bigint().0;
        FieldElement { l0: limbs[0], l1: limbs[1], l2: limbs[2], l3: limbs[3] }
    }

    /// Field multiplication (ark_bn254's `Fr * Fr`).
    #[verifier::external_body]
    pub fn mul(self, rhs: FieldElement) -> (r: FieldElement)
        ensures
            r@ == field_mul(self@, rhs@),
    {
        let a = Fr::new(BigInt::new([self.l0, self.l1, self.l2, self.l3]));
        let b = Fr::new(BigInt::new([rhs.l0, rhs.l1, rhs.l2, rhs.l3]));
        let limbs = (a * b).into_bigint().0;
        FieldElement { l0: limbs[0], l1: limbs[1], l2: limbs[2], l3: limbs[3] }
    }

    /// Additive inverse (ark_bn254's `-Fr`).
    #[verifier::external_body]
    pub fn neg(self) -> (r: FieldElement)
        ensures
            r@ == field_neg(self@),
    {
        let a = Fr::new(BigInt::new([self.l0, self.l1, self.l2, self.l3]));
        let limbs = (-a).into_bigint().0;
        FieldElement { l0: limbs[0], l1: limbs[1], l2: limbs[2], l3: limbs[3] }
    }

    /// Whether the canonical representative is below `2^bits`.
    pub fn fits_in_bits(&self, bits: u8) -> (r: bool)
        ensures
            r == fits_bits(self@, bits as nat),
    {
        let limb_index: u8 = bits / 64;
        let shift: u8 = bits % 64;
        let top: u64 = 1u64 << (shift as u64);
        proof {
            lemma_u64_pow2_no_overflow(shift as nat);
            lemma_u64_shl_is_mul(1, shift as u64);
            lemma2_to64();
            lemma_pow2_adds(64, 64);
            lemma_pow2_adds(128, 64);
            assert(bits == 64 * limb_index + shift);
        }
        if limb_index == 0 {
            assert(limbs_value(top, 0, 0, 0) == pow2(bits as nat)) by {
                assert(bits == shift);
            }
            limbs_less(self.l0, self.l1, self.l2, self.l3, top, 0, 0, 0)
        } else if limb_index == 1 {
            assert(limbs_value(0, top, 0, 0) == pow2(bits as nat)) by {
                lemma_pow2_adds(64, shift as nat);
                assert(bits as nat == 64 + shift as nat);
                assert(pow2(64) == 0x1_0000_0000_0000_0000nat);
            }
            limbs_less(self.l0, self.l1, self.l2, self.l3, 0, top, 0, 0)
        } else if limb_index == 2 {
            assert(limbs_value(0, 0, top, 0) == pow2(bits as nat)) by {
                lemma_pow2_adds(128, shift as nat);
                assert(bits as nat == 128 + shift as nat);
                assert(pow2(64) == 0x1_0000_0000_0000_0000nat);
                assert(pow2(128) == 0x1_0000_0000_0000_0000_0000_0000_0000_0000nat);
            }
            limbs_less(self.l0, self.l1, self.l2, self.l3, 0, 0, top, 0)
        } else {
            assert(limbs_value(0, 0, 0, top) == pow2(bits as nat)) by {
                lemma_pow2_adds(192, shift as nat);
                assert(bits as nat == 192 + shift as nat);
                assert(pow2(64) == 0x1_0000_0000_0000_0000nat);
                assert(pow2(128) == 0x1_0000_0000_0000_0000_0000_0000_0000_0000nat);
                assert(pow2(192)
                    == 0x1_0000_0000_0000_0000_0000_0000_0000_0000_0000_0000_0000_0000nat);
            }
            limbs_less(self.l0, self.l1, self.l2, self.l3, 0, 0, 0, top)
        }
    }


    /// Parses a signed decimal integer (as num_bigint's `BigInt::parse_bytes` with radix 10
    /// accepts it) and reduces it modulo `p`.
    pub fn parse(raw: &str) -> (r: Result<FieldElement, String>)
        ensures
            r matches Ok(fe) ==> parsed_value(raw@) == Some(fe@),
            r is Err <==> parsed_value(raw@) is None,
            r matches Err(msg) ==> msg@ == "invalid field element `"@ + raw@ + "`"@,
    {
        let chars = chars_of(raw);
        let n = chars.len();
        let mut start: usize = 0;
        let mut negative = false;
        if n > 0 && chars[0] == '-' {
            start = 1;
            negative = true;
        } else if n > 0 && chars[0] == '+' {
            start = 1;
        }
        let ghost u = chars@.subrange(start as int, n as int);
        assert(split_sign(raw@) == (negative, u)) by {
            if start == 1 {
                assert(chars@.drop_first() =~= u);
            } else {
                assert(chars@ =~= u);
            }
        }
        let mut valid = start < n && chars[start] != '_';
        let mut i: usize = start;
        while valid && i < n
            invariant
                start <= i <= n,
                n == chars@.len(),
                u == chars@.subrange(start as int, n as int),
                valid ==> start < n && chars@[start as int] != '_',
                valid ==> forall|j: int| start <= j < i ==> is_digit_or_separator(#[trigger] chars@[j]),
                !valid ==> !valid_magnitude(u),
            decreases n - i,
        {
            let c = chars[i];
            if !(('0' <= c && c <= '9') || c == '_') {
                valid = false;
                assert(!is_digit_or_separator(u[i - start]));
            }
            i = i + 1;
        }
        if !valid {
            let mut msg = crate::text::to_owned("invalid field element `");
            push_str(&mut msg, raw);
            push_char(&mut msg, '`');
            proof {
                reveal_strlit("invalid field element `");
                reveal_strlit("`");
            }
            assert(msg@ =~= "invalid field element `"@ + raw@ + "`"@);
            return Err(msg);
        }
        assert(valid_magnitude(u)) by {
            assert forall|j: int| 0 <= j < u.len() implies is_digit_or_separator(#[trigger] u[j]) by {
                assert(u[j] == chars@[start + j]);
            }
        }
        let ten = FieldElement::from_u128(10);
        let mut acc = FieldElement::zero();
        let mut k: usize = start;
        proof {
            assert(u.subrange(0, 0) =~= Seq::<char>::empty());
            lemma_small_mod(0, modulus());
        }
        while k < n
            invariant
                start <= k <= n,
                n == chars@.len(),
                u == chars@.subrange(start as int, n as int),
                valid_magnitude(u),
                acc@ == reduce(magnitude_value(u.subrange(0, k - start)) as int),
                ten@ == 10,
            decreases n - k,
        {
            let c = chars[k];
            let ghost prefix = u.subrange(0, k - start);
            let ghost next = u.subrange(0, k + 1 - start);
            assert(next.drop_last() =~= prefix);
            assert(next.last() == c);
            assert(is_digit_or_separator(u[k - start]));
            if c != '_' {
                let d = digit_value(c);
                proof {
                    lemma_reduce_step(acc@, magnitude_value(prefix), d as nat);
                }
                acc = acc.mul(ten).add(FieldElement::from_u128(d as u128));
            }
            k = k + 1;
        }
        assert(u.subrange(0, n - start) =~= u);
        if negative {
            proof {
                lemma_reduce_neg(acc@, magnitude_value(u));
            }
            Ok(acc.neg())
        } else {
            Ok(acc)
        }
    }

    /// The decimal text of the canonical representative (num_bigint's `Display` for
    /// `BigUint`).
    #[verifier::external_body]
    pub fn to_string(&self) -> (s: String)
        ensures
            s@ == decimal(self@),
    {
        BigUint::from(BigInt::new([self.l0, self.l1, self.l2, self.l3])).to_string()
    }
}

} // verus!
