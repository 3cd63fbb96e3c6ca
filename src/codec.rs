//! Byte-level number encodings and the facts that make them invertible.
use vstd::prelude::*;

verus! {

/// `256` raised to the power `k`.
pub open spec fn pow256(k: nat) -> nat
    decreases k,
{
    if k == 0 {
        1
    } else {
        256 * pow256((k - 1) as nat)
    }
}

/// The number that a big-endian byte string stands for.
pub open spec fn be_value(s: Seq<u8>) -> nat
    decreases s.len(),
{
    if s.len() == 0 {
        0
    } else {
        (be_value(s.drop_last()) * 256 + s.last()) as nat
    }
}

/// The number that a little-endian byte string stands for.
pub open spec fn le_value(s: Seq<u8>) -> nat
    decreases s.len(),
{
    if s.len() == 0 {
        0
    } else {
        (s[0] + 256 * le_value(s.drop_first())) as nat
    }
}

/// The `k` lowest bytes of `n`, least significant first.
pub open spec fn le_bytes(n: nat, k: nat) -> Seq<u8>
    decreases k,
{
    if k == 0 {
        seq![]
    } else {
        seq![(n % 256) as u8] + le_bytes(n / 256, (k - 1) as nat)
    }
}

/// Two to the power 128, the number of values of a `u128`.
pub open spec fn two_pow_128() -> nat {
    u128::MAX as nat + 1
}

pub proof fn lemma_pow256_16()
    ensures
        pow256(16) == two_pow_128(),
{
    reveal_with_fuel(pow256, 17);
}

pub proof fn lemma_pow256_positive(k: nat)
    ensures
        pow256(k) >= 1,
    decreases k,
{
    if k > 0 {
        lemma_pow256_positive((k - 1) as nat);
    }
}

pub proof fn lemma_pow256_mono(a: nat, b: nat)
    requires
        a <= b,
    ensures
        pow256(a) <= pow256(b),
    decreases b,
{
    if a < b {
        lemma_pow256_mono(a, (b - 1) as nat);
        lemma_pow256_positive((b - 1) as nat);
    }
}

pub proof fn lemma_le_bytes_len(n: nat, k: nat)
    ensures
        le_bytes(n, k).len() == k,
    decreases k,
{
    if k > 0 {
        lemma_le_bytes_len(n / 256, (k - 1) as nat);
    }
}

/// Reading back the bytes of a number that fits gives the number.
pub proof fn lemma_le_value_of_bytes(n: nat, k: nat)
    requires
        n < pow256(k),
    ensures
        le_value(le_bytes(n, k)) == n,
    decreases k,
{
    if k == 0 {
    } else {
        let p = pow256((k - 1) as nat);
        assert(n / 256 < p) by (nonlinear_arith)
            requires
                n < 256 * p,
        ;
        lemma_le_value_of_bytes(n / 256, (k - 1) as nat);
        let s = le_bytes(n, k);
        assert(s.drop_first() =~= le_bytes(n / 256, (k - 1) as nat));
        assert(n == n % 256 + 256 * (n / 256)) by (nonlinear_arith);
    }
}

/// Writing out the value of a little-endian string gives the string back.
pub proof fn lemma_le_bytes_of_value(s: Seq<u8>)
    ensures
        le_bytes(le_value(s), s.len()) == s,
    decreases s.len(),
{
    if s.len() > 0 {
        lemma_le_bytes_of_value(s.drop_first());
        let v = le_value(s.drop_first());
        let b = s[0] as nat;
        assert((b + 256 * v) % 256 == b && (b + 256 * v) / 256 == v) by (nonlinear_arith)
            requires
                b < 256,
        ;
        assert(le_bytes(le_value(s), s.len()) =~= s);
    }
}

/// A little-endian string split in two: the low part, then the high part
/// weighted by the width of the low part.
pub proof fn lemma_le_value_append(a: Seq<u8>, b: Seq<u8>)
    ensures
        le_value(a + b) == le_value(a) + pow256(a.len()) * le_value(b),
    decreases a.len(),
{
    if a.len() == 0 {
        assert(a + b =~= b);
        assert(pow256(0) == 1);
        assert(le_value(a) == 0);
    } else {
        assert((a + b).drop_first() =~= a.drop_first() + b);
        lemma_le_value_append(a.drop_first(), b);
        let x = le_value(a.drop_first());
        let p = pow256((a.len() - 1) as nat);
        let y = le_value(b);
        assert(256 * (x + p * y) == 256 * x + (256 * p) * y) by (nonlinear_arith);
        assert((a + b)[0] == a[0]);
        assert(pow256(a.len()) == 256 * p);
        assert(le_value(a) == a[0] + 256 * x);
        assert(le_value(a + b) == a[0] + 256 * le_value(a.drop_first() + b));
        assert(pow256(a.len()) * y == (256 * p) * y);
    }
}

/// A string read from the back in big-endian order has the value of the
/// string read from the front in little-endian order.
pub proof fn lemma_be_of_reversed(s: Seq<u8>, t: Seq<u8>)
    requires
        t.len() == s.len(),
        forall|i: int| 0 <= i < t.len() ==> t[i] == s[s.len() - 1 - i],
    ensures
        be_value(t) == le_value(s),
    decreases s.len(),
{
    if s.len() > 0 {
        let s2 = s.drop_first();
        let t2 = t.drop_last();
        assert forall|i: int| 0 <= i < t2.len() implies t2[i] == s2[s2.len() - 1 - i] by {
            assert(t2[i] == t[i]);
        }
        lemma_be_of_reversed(s2, t2);
    }
}

/// A little-endian value is below `256` to the power of its width.
pub proof fn lemma_le_value_bound(s: Seq<u8>)
    ensures
        le_value(s) < pow256(s.len()),
    decreases s.len(),
{
    if s.len() > 0 {
        lemma_le_value_bound(s.drop_first());
        let v = le_value(s.drop_first());
        let p = pow256((s.len() - 1) as nat);
        let b = s[0] as nat;
        assert(b + 256 * v < 256 * p) by (nonlinear_arith)
            requires
                v < p,
                b < 256,
        ;
    }
}

/// A big-endian value is below `256` to the power of its width.
pub proof fn lemma_be_value_bound(s: Seq<u8>)
    ensures
        be_value(s) < pow256(s.len()),
    decreases s.len(),
{
    if s.len() > 0 {
        lemma_be_value_bound(s.drop_last());
        let v = be_value(s.drop_last());
        let p = pow256((s.len() - 1) as nat);
        let b = s.last() as nat;
        assert(v * 256 + b < 256 * p) by (nonlinear_arith)
            requires
                v < p,
                b < 256,
        ;
    }
}

/// Splitting a big-endian string in two splits its value.
pub proof fn lemma_be_value_append(a: Seq<u8>, b: Seq<u8>)
    ensures
        be_value(a + b) == be_value(a) * pow256(b.len()) + be_value(b),
    decreases b.len(),
{
    if b.len() == 0 {
        assert(a + b =~= a);
        assert(pow256(0) == 1);
        assert(be_value(b) == 0);
    } else {
        assert((a + b).drop_last() =~= a + b.drop_last());
        lemma_be_value_append(a, b.drop_last());
        let x = be_value(a);
        let p = pow256((b.len() - 1) as nat);
        let y = be_value(b.drop_last());
        assert((x * p + y) * 256 == x * (256 * p) + y * 256) by (nonlinear_arith);
        assert((a + b).last() == b.last());
        assert(pow256(b.len()) == 256 * p);
        assert(be_value(b) == y * 256 + b.last());
        assert(be_value(a + b) == (x * p + y) * 256 + b.last());
        assert(x * pow256(b.len()) == x * (256 * p));
        assert(be_value(a + b) == x * pow256(b.len()) + be_value(b));
    }
}

/// Appends the sixteen little-endian bytes of `n` to `out`.
pub fn push_u128_le(out: &mut Vec<u8>, n: u128)
    ensures
        final(out)@ == old(out)@ + le_bytes(n as nat, 16),
{
    let mut cur: u128 = n;
    let mut i: usize = 0;
    while i < 16
        invariant
            i <= 16,
            old(out)@ + le_bytes(n as nat, 16) == out@ + le_bytes(cur as nat, (16 - i) as nat),
        decreases 16 - i,
    {
        let ghost before = out@;
        assert(le_bytes(cur as nat, (16 - i) as nat) == seq![(cur % 256) as u8] + le_bytes(
            (cur / 256) as nat,
            (16 - i - 1) as nat,
        ));
        out.push((cur % 256) as u8);
        assert(before + (seq![(cur % 256) as u8] + le_bytes((cur / 256) as nat, (16 - i - 1) as nat))
            =~= out@ + le_bytes((cur / 256) as nat, (16 - i - 1) as nat));
        cur = cur / 256;
        i = i + 1;
    }
    assert(out@ + le_bytes(cur as nat, 0) =~= out@);
}

/// Reads a `u128` stored in little-endian order at `pos`; `None` when fewer
/// than sixteen bytes are left.
pub fn read_u128_le(s: &Vec<u8>, pos: usize) -> (r: Option<u128>)
    ensures
        r is Some <==> pos + 16 <= s@.len(),
        r matches Some(v) ==> v as nat == le_value(s@.subrange(pos as int, pos + 16)),
{
    if pos > s.len() || s.len() - pos < 16 {
        return None;
    }
    let ghost w = s@.subrange(pos as int, pos + 16);
    let mut acc: u128 = 0;
    let mut i: usize = 16;
    while i > 0
        invariant
            i <= 16,
            pos + 16 <= s@.len(),
            s@.len() <= usize::MAX,
            w == s@.subrange(pos as int, pos + 16),
            acc as nat == le_value(w.subrange(i as int, 16)),
        decreases i,
    {
        proof {
            lemma_le_value_bound(w.subrange(i as int, 16));
            lemma_pow256_mono((16 - i) as nat, 15);
            lemma_pow256_16();
            assert(pow256(16) == 256 * pow256(15));
            assert(w.subrange(i - 1, 16).drop_first() =~= w.subrange(i as int, 16));
        }
        let j: usize = i - 1;
        let b = s[pos + j];
        assert(acc * 256 + b < two_pow_128()) by (nonlinear_arith)
            requires
                acc < pow256(15),
                256 * pow256(15) == two_pow_128(),
                b < 256,
        ;
        acc = b as u128 + 256 * acc;
        i = i - 1;
    }
    assert(w.subrange(0, 16) =~= w);
    Some(acc)
}

} // verus!
