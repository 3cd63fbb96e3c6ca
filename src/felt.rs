//! Elements of the Stark prime field and contract addresses built on them.
use vstd::prelude::*;

use crate::codec::{
    be_value, le_bytes, le_value, lemma_be_value_append, lemma_be_value_bound,
    lemma_le_value_bound, lemma_pow256_16, pow256, push_u128_le, read_u128_le, two_pow_128,
};
use crate::error::ConversionError;


verus! {

/// The field's prime is `PRIME_HIGH * 2^128 + 1`, that is `2^251 + 17 * 2^192 + 1`.
pub const PRIME_HIGH: u128 = 0x8000000000000110000000000000000;

/// Addresses lie below `ADDRESS_HIGH * 2^128`, that is `2^251`.
pub const ADDRESS_HIGH: u128 = 0x8000000000000000000000000000000;

/// The prime of the Stark field.
pub open spec fn felt_prime() -> nat {
    (PRIME_HIGH * two_pow_128() + 1) as nat
}

/// Two to the power 251: addresses lie below it.
pub open spec fn address_bound() -> nat {
    (ADDRESS_HIGH as nat * two_pow_128()) as nat
}

/// An element of the Stark field, kept as its high and low 128-bit halves.
#[derive(Clone, Copy, Debug, PartialEq, Eq, Structural, Hash, PartialOrd, Ord)]
pub struct Felt {
    hi: u128,
    lo: u128,
}

/// The 32 bytes that store a field element of value `v` in a snapshot: the
/// low half, then the high half, each least significant byte first.
pub open spec fn felt_le(v: nat) -> Seq<u8> {
    le_bytes(v % two_pow_128(), 16) + le_bytes(v / two_pow_128(), 16)
}

impl Felt {
    /// The number this element stands for.
    pub closed spec fn value(&self) -> nat {
        (self.hi * two_pow_128() + self.lo) as nat
    }

    /// The element lies below the prime.
    pub open spec fn wf(&self) -> bool {
        self.value() < felt_prime()
    }

    /// Two elements of equal value are equal.
    pub proof fn lemma_value_injective(a: Felt, b: Felt)
        requires
            a.value() == b.value(),
        ensures
            a == b,
    {
        assert(a.hi == b.hi && a.lo == b.lo) by (nonlinear_arith)
            requires
                a.hi * two_pow_128() + a.lo == b.hi * two_pow_128() + b.lo,
                a.lo < two_pow_128(),
                b.lo < two_pow_128(),
        ;
    }

    /// The element whose value is `v`.
    pub fn from_u128(v: u128) -> (r: Felt)
        ensures
            r.value() == v,
            r.wf(),
    {
        Felt { hi: 0, lo: v }
    }

    /// The next element of the field: `self + 1`, wrapping to zero at the
    /// prime.
    pub fn successor(&self) -> (r: Felt)
        requires
            self.wf(),
        ensures
            r.wf(),
            r.value() == (self.value() + 1) % felt_prime(),
    {
        let ghost t = two_pow_128() as int;
        proof {
            lemma_below_prime(self.hi, self.lo);
        }
        if self.hi == PRIME_HIGH && self.lo == 0 {
            assert(self.value() + 1 == felt_prime());
            proof {
                vstd::arithmetic::div_mod::lemma_mod_self_0(felt_prime() as int);
            }
            return Felt { hi: 0, lo: 0 };
        }
        let r = if self.lo == u128::MAX {
            Felt { hi: self.hi + 1, lo: 0 }
        } else {
            Felt { hi: self.hi, lo: self.lo + 1 }
        };
        proof {
            lemma_below_prime(r.hi, r.lo);
            assert(r.value() == self.value() + 1) by (nonlinear_arith)
                requires
                    self.lo == u128::MAX ==> r.hi == self.hi + 1 && r.lo == 0,
                    self.lo != u128::MAX ==> r.hi == self.hi && r.lo == self.lo + 1,
                    t == u128::MAX + 1,
                    r.value() == r.hi * t + r.lo,
                    self.value() == self.hi * t + self.lo,
            ;
            vstd::arithmetic::div_mod::lemma_small_mod(r.value(), felt_prime());
        }
        r
    }

    /// The element of value `hi * 2^128 + lo`, where that is below the prime.
    pub(crate) fn from_halves(hi: u128, lo: u128) -> (r: Felt)
        requires
            hi < PRIME_HIGH,
        ensures
            r.value() == hi * two_pow_128() + lo,
            r.wf(),
    {
        proof {
            lemma_below_prime(hi, lo);
        }
        Felt { hi, lo }
    }

    /// The element whose big-endian bytes are `bytes`; fails where their
    /// value is not below the prime.
    pub fn new(bytes: [u8; 32]) -> (r: Result<Felt, ConversionError>)
        ensures
            r is Ok <==> be_value(bytes@) < felt_prime(),
            r matches Ok(f) ==> f.value() == be_value(bytes@) && f.wf(),
            r matches Err(e) ==> e == ConversionError::FromByteArrayError,
    {
        let hi = be_u128_at(&bytes, 0);
        let lo = be_u128_at(&bytes, 16);
        proof {
            assert(bytes@ =~= bytes@.subrange(0, 16) + bytes@.subrange(16, 32));
            lemma_be_value_append(bytes@.subrange(0, 16), bytes@.subrange(16, 32));
            lemma_pow256_16();
        }
        proof {
            lemma_below_prime(hi, lo);
        }
        if hi < PRIME_HIGH || (hi == PRIME_HIGH && lo == 0) {
            Ok(Felt { hi, lo })
        } else {
            Err(ConversionError::FromByteArrayError)
        }
    }

    /// The element's 32 big-endian bytes.
    pub fn to_bytes_be(&self) -> (r: [u8; 32])
        ensures
            be_value(r@) == self.value(),
    {
        let mut le: Vec<u8> = Vec::new();
        self.push_le(&mut le);
        proof {
            self.lemma_halves();
            lemma_pow256_16();
            crate::codec::lemma_le_bytes_len(self.lo as nat, 16);
            crate::codec::lemma_le_value_of_bytes(self.lo as nat, 16);
            crate::codec::lemma_le_value_of_bytes(self.hi as nat, 16);
            crate::codec::lemma_le_value_append(
                le_bytes(self.lo as nat, 16),
                le_bytes(self.hi as nat, 16),
            );
            assert(le@ =~= le_bytes(self.lo as nat, 16) + le_bytes(self.hi as nat, 16));
            crate::codec::lemma_le_bytes_len(self.hi as nat, 16);
            assert(le_value(le@) == self.value()) by (nonlinear_arith)
                requires
                    le_value(le@) == self.lo + pow256(16) * self.hi,
                    pow256(16) == two_pow_128(),
                    self.value() == self.hi * two_pow_128() + self.lo,
            ;
        }
        let mut r = [0u8; 32];
        let mut i: usize = 0;
        while i < 32
            invariant
                i <= 32,
                le@.len() == 32,
                forall|j: int| 0 <= j < i ==> r@[j] == le@[31 - j],
            decreases 32 - i,
        {
            r.set(i, le[31 - i]);
            i = i + 1;
        }
        proof {
            crate::codec::lemma_be_of_reversed(le@, r@);
        }
        r
    }

    /// Appends the element's 32 snapshot bytes to `out`.
    pub fn push_le(&self, out: &mut Vec<u8>)
        ensures
            final(out)@ == old(out)@ + felt_le(self.value()),
    {
        proof {
            self.lemma_halves();
        }
        push_u128_le(out, self.lo);
        push_u128_le(out, self.hi);
        assert(final(out)@ =~= old(out)@ + felt_le(self.value()));
    }

    proof fn lemma_halves(&self)
        ensures
            self.value() % two_pow_128() == self.lo,
            self.value() / two_pow_128() == self.hi,
    {
        let v = self.value();
        assert(v % two_pow_128() == self.lo && v / two_pow_128() == self.hi) by (nonlinear_arith)
            requires
                v == self.hi * two_pow_128() + self.lo,
                self.lo < two_pow_128(),
        ;
    }

    /// Reads an element stored by `push_le` at `pos`: `None` where fewer than
    /// 32 bytes are left or their value is not below the prime.
    pub fn read_le(s: &Vec<u8>, pos: usize) -> (r: Option<Felt>)
        ensures
            pos + 32 <= s@.len() && felt_le_value(s@.subrange(pos as int, pos + 32)) < felt_prime()
                <==> r is Some,
            r matches Some(f) ==> f.wf() && f.value() == felt_le_value(
                s@.subrange(pos as int, pos + 32),
            ),
    {
        if pos > s.len() || s.len() - pos < 32 {
            return None;
        }
        let lo = read_u128_le(s, pos).unwrap();
        let hi = read_u128_le(s, pos + 16).unwrap();
        proof {
            let w = s@.subrange(pos as int, pos + 32);
            assert(w.subrange(0, 16) =~= s@.subrange(pos as int, pos + 16));
            assert(w.subrange(16, 32) =~= s@.subrange(pos + 16, pos + 32));
        }
        proof {
            lemma_below_prime(hi, lo);
        }
        if hi < PRIME_HIGH || (hi == PRIME_HIGH && lo == 0) {
            Some(Felt { hi, lo })
        } else {
            None
        }
    }

    /// Thirty-two snapshot bytes are exactly the bytes of their value.
    pub proof fn lemma_le_canonical(w: Seq<u8>)
        requires
            w.len() == 32,
        ensures
            felt_le(felt_le_value(w)) == w,
    {
        let lo = w.subrange(0, 16);
        let hi = w.subrange(16, 32);
        lemma_le_value_bound(lo);
        lemma_pow256_16();
        crate::codec::lemma_le_bytes_of_value(lo);
        crate::codec::lemma_le_bytes_of_value(hi);
        let l = le_value(lo);
        let h = le_value(hi);
        let v = felt_le_value(w);
        assert(v % two_pow_128() == l && v / two_pow_128() == h) by (nonlinear_arith)
            requires
                v == h * two_pow_128() + l,
                l < two_pow_128(),
        ;
        assert(felt_le(v) =~= w);
    }

    /// What `read_le` gives back on the bytes that `push_le` wrote.
    pub proof fn lemma_le_round_trip(&self)
        requires
            self.wf(),
        ensures
            felt_le(self.value()).len() == 32,
            felt_le_value(felt_le(self.value())) == self.value(),
    {
        self.lemma_halves();
        lemma_pow256_16();
        crate::codec::lemma_le_bytes_len(self.lo as nat, 16);
        crate::codec::lemma_le_bytes_len(self.hi as nat, 16);
        crate::codec::lemma_le_value_of_bytes(self.lo as nat, 16);
        crate::codec::lemma_le_value_of_bytes(self.hi as nat, 16);
        let b = felt_le(self.value());
        assert(b.subrange(0, 16) =~= le_bytes(self.lo as nat, 16));
        assert(b.subrange(16, 32) =~= le_bytes(self.hi as nat, 16));
    }
}

/// The value of 32 snapshot bytes, stored low half first, each half least
/// significant byte first.
pub open spec fn felt_le_value(w: Seq<u8>) -> nat {
    le_value(w.subrange(16, 32)) * two_pow_128() + le_value(w.subrange(0, 16))
}

/// The halves `hi`, `lo` stand for an element below the prime exactly when
/// `hi` is below `PRIME_HIGH`, or equal to it with `lo` zero.
proof fn lemma_below_prime(hi: u128, lo: u128)
    ensures
        (hi < PRIME_HIGH || (hi == PRIME_HIGH && lo == 0)) <==> hi * two_pow_128() + lo
            < felt_prime(),
{
    let t = two_pow_128() as int;
    let ph = PRIME_HIGH as int;
    assert(t == u128::MAX + 1);
    if hi < PRIME_HIGH {
        assert(hi * t + lo < ph * t + 1) by (nonlinear_arith)
            requires
                hi + 1 <= ph,
                lo < t,
        ;
    } else if hi == PRIME_HIGH {
    } else {
        assert(hi * t + lo >= ph * t + 1) by (nonlinear_arith)
            requires
                hi >= ph + 1,
                t >= 2,
                lo >= 0,
        ;
    }
}

/// The halves `hi`, `lo` stand for a valid address exactly when `hi` is below
/// two to the power 123 and the two are not both zero.
proof fn lemma_address_range(hi: u128, lo: u128)
    ensures
        (hi < ADDRESS_HIGH && (hi > 0 || lo > 0)) <==> 0 < hi
            * two_pow_128() + lo < address_bound(),
{
    let t = two_pow_128() as int;
    let ah = ADDRESS_HIGH as int;
    assert(t == u128::MAX + 1);
    if hi < ah {
        assert(hi * t + lo < ah * t) by (nonlinear_arith)
            requires
                hi + 1 <= ah,
                lo < t,
        ;
    } else {
        assert(hi * t + lo >= ah * t) by (nonlinear_arith)
            requires
                hi >= ah,
                t >= 2,
                lo >= 0,
        ;
    }
    if hi > 0 {
        assert(hi * t + lo > 0) by (nonlinear_arith)
            requires
                hi >= 1,
                t >= 2,
                lo >= 0,
        ;
    }
}

/// The big-endian value of the sixteen bytes of `b` from `start` on.
fn be_u128_at(b: &[u8; 32], start: usize) -> (r: u128)
    requires
        start == 0 || start == 16,
    ensures
        r == be_value(b@.subrange(start as int, start + 16)),
{
    let mut acc: u128 = 0;
    let mut i: usize = start;
    while i < start + 16
        invariant
            start == 0 || start == 16,
            start <= i <= start + 16,
            acc == be_value(b@.subrange(start as int, i as int)),
        decreases start + 16 - i,
    {
        proof {
            lemma_be_value_bound(b@.subrange(start as int, i as int));
            crate::codec::lemma_pow256_mono((i - start) as nat, 15);
            lemma_pow256_16();
            assert(pow256(16) == 256 * pow256(15));
            assert(b@.subrange(start as int, i + 1).drop_last() =~= b@.subrange(
                start as int,
                i as int,
            ));
        }
        let x = b[i];
        assert(acc * 256 + x < two_pow_128()) by (nonlinear_arith)
            requires
                acc < pow256(15),
                256 * pow256(15) == two_pow_128(),
                x < 256,
        ;
        acc = acc * 256 + x as u128;
        i = i + 1;
    }
    acc
}

/// The Starknet Pedersen hash of two field elements, by their values.
pub uninterp spec fn pedersen_of(x: nat, y: nat) -> nat;

/// Relies on starknet_crypto::pedersen_hash: the Starknet Pedersen hash of two
/// field elements, which is again an element of the field. The arguments are
/// handed over by their 32 big-endian bytes (starknet_crypto::Felt::from_bytes_be)
/// and the result is taken back the same way (to_bytes_be); both elements lie
/// below the prime, so no reduction takes place on the way in.
#[verifier::external_body]
pub(crate) fn pedersen(a: &Felt, b: &Felt) -> (r: Felt)
    requires
        a.wf(),
        b.wf(),
    ensures
        r.wf(),
        r.value() == pedersen_of(a.value(), b.value()),
{
    let x: [u8; 32] = [a.hi.to_be_bytes(), a.lo.to_be_bytes()].concat().try_into().unwrap();
    let y: [u8; 32] = [b.hi.to_be_bytes(), b.lo.to_be_bytes()].concat().try_into().unwrap();
    let h = starknet_crypto::pedersen_hash(
        &starknet_crypto::Felt::from_bytes_be(&x),
        &starknet_crypto::Felt::from_bytes_be(&y),
    ).to_bytes_be();
    let (hi, lo) = h.split_at(16);
    Felt { hi: u128::from_be_bytes(hi.try_into().unwrap()), lo: u128::from_be_bytes(lo.try_into().unwrap()) }
}

/// A contract address: a field element that is not zero and lies below two
/// to the power 251.
#[derive(Clone, Copy, Debug, PartialEq, Eq, Structural, Hash, PartialOrd, Ord)]
pub struct ContractAddress {
    felt: Felt,
}

impl ContractAddress {
    /// The field element of the address.
    pub closed spec fn felt_spec(&self) -> Felt {
        self.felt
    }

    /// The address is a nonzero element below two to the power 251.
    pub open spec fn wf(&self) -> bool {
        &&& self.felt_spec().wf()
        &&& 0 < self.felt_spec().value() < address_bound()
    }

    /// The address of element `felt`; fails where `felt` is zero or not below
    /// two to the power 251.
    pub fn new(felt: Felt) -> (r: Result<ContractAddress, ConversionError>)
        requires
            felt.wf(),
        ensures
            r is Ok <==> 0 < felt.value() < address_bound(),
            r matches Ok(a) ==> a.felt_spec() == felt && a.wf(),
            r matches Err(e) ==> e == ConversionError::InvalidContractAddress,
    {
        proof {
            lemma_address_range(felt.hi, felt.lo);
        }
        if felt.hi < ADDRESS_HIGH && (felt.hi > 0 || felt.lo > 0) {
            Ok(ContractAddress { felt })
        } else {
            Err(ConversionError::InvalidContractAddress)
        }
    }

    /// The field element of the address.
    pub fn felt(&self) -> (r: Felt)
        ensures
            r == self.felt_spec(),
    {
        self.felt
    }
}

} // verus!
