//! Fixed-width big-endian unsigned integers read from the front of a byte cursor.
use vstd::prelude::*;

verus! {

/// The unsigned value of `s` read as a big-endian number.
pub open spec fn be_value(s: Seq<u8>) -> nat
    decreases s.len(),
{
    if s.len() == 0 {
        0
    } else {
        be_value(s.drop_last()) * 256 + s.last() as nat
    }
}

/// `256` raised to the power `n`.
pub open spec fn pow256(n: nat) -> nat
    decreases n,
{
    if n == 0 {
        1
    } else {
        pow256((n - 1) as nat) * 256
    }
}

/// The `n` bytes that write `v` in big-endian order (keeping the low `n` bytes of `v`).
pub open spec fn be_bytes(v: nat, n: nat) -> Seq<u8>
    decreases n,
{
    if n == 0 {
        Seq::empty()
    } else {
        be_bytes(v / 256, (n - 1) as nat).push((v % 256) as u8)
    }
}

/// A value made of `n` bytes is below `256^n`.
pub proof fn lemma_be_value_bound(s: Seq<u8>)
    ensures
        be_value(s) < pow256(s.len()),
    decreases s.len(),
{
    if s.len() > 0 {
        lemma_be_value_bound(s.drop_last());
        let a = be_value(s.drop_last());
        let p = pow256((s.len() - 1) as nat);
        let b = s.last() as nat;
        assert(a * 256 + b < p * 256) by (nonlinear_arith)
            requires
                a < p,
                b < 256,
        ;
    }
}

/// Reading a sequence in two parts: the first part's value is shifted past the second part.
pub proof fn lemma_be_value_concat(a: Seq<u8>, b: Seq<u8>)
    ensures
        be_value(a + b) == be_value(a) * pow256(b.len()) + be_value(b),
    decreases b.len(),
{
    if b.len() == 0 {
        assert(a + b =~= a);
        assert(pow256(0) == 1);
        assert(be_value(b) == 0);
    } else {
        let b0 = b.drop_last();
        assert((a + b).drop_last() =~= a + b0);
        assert((a + b).last() == b.last());
        lemma_be_value_concat(a, b0);
        let x = be_value(a);
        let y = be_value(b0);
        let p = pow256(b0.len());
        let c = b.last() as nat;
        assert(be_value(a + b) == be_value(a + b0) * 256 + c);
        assert(be_value(b) == y * 256 + c);
        assert(pow256(b.len()) == p * 256);
        assert((x * p + y) * 256 + c == x * (p * 256) + (y * 256 + c)) by (nonlinear_arith);
    }
}

/// Reading a sequence one byte at a time gives the bytes back: writing the value
/// of `s` big-endian in `s.len()` bytes reproduces `s`.
pub proof fn lemma_be_round_trip(s: Seq<u8>)
    ensures
        be_bytes(be_value(s), s.len()) == s,
    decreases s.len(),
{
    if s.len() > 0 {
        let a = be_value(s.drop_last());
        let c = s.last() as nat;
        assert((a * 256 + c) / 256 == a && (a * 256 + c) % 256 == c) by (nonlinear_arith)
            requires
                c < 256,
        ;
        lemma_be_round_trip(s.drop_last());
        assert(be_bytes(be_value(s), s.len()) =~= s.drop_last().push(s.last()));
        assert(s.drop_last().push(s.last()) =~= s);
    }
}

/// Reading `j` bytes at once gives the value of reading the first `i` of them,
/// shifted past the other `j - i`, plus the value of reading those.
pub proof fn lemma_read_in_parts(s: Seq<u8>, i: int, j: int)
    requires
        0 <= i <= j <= s.len(),
    ensures
        be_value(s.subrange(0, j)) == be_value(s.subrange(0, i)) * pow256((j - i) as nat)
            + be_value(s.subrange(i, j)),
{
    assert(s.subrange(0, j) =~= s.subrange(0, i) + s.subrange(i, j));
    lemma_be_value_concat(s.subrange(0, i), s.subrange(i, j));
}

pub type U1 = u8;

pub type U2 = u16;

pub type U4 = u32;

pub type U8 = u64;

/// An unsigned integer that class files store big-endian in a fixed number of bytes.
pub trait BytecodeReader: Sized {
    /// How many bytes one value takes.
    spec fn byte_width() -> nat;

    /// The value as a natural number.
    spec fn as_nat(&self) -> nat;

    /// Reads one value from the front of `bytes` and moves `bytes` past it.
    fn read(bytes: &mut &[u8]) -> (r: Self)
        requires
            old(bytes)@.len() >= Self::byte_width(),
        ensures
            r.as_nat() == be_value(old(bytes)@.subrange(0, Self::byte_width() as int)),
            final(bytes)@ == old(bytes)@.subrange(
                Self::byte_width() as int,
                old(bytes)@.len() as int,
            ),
    ;
}

impl BytecodeReader for u8 {
    open spec fn byte_width() -> nat {
        1
    }

    open spec fn as_nat(&self) -> nat {
        *self as nat
    }

    fn read(bytes: &mut &[u8]) -> (r: u8) {
        let v = take_be(bytes, 1);
        proof {
            lemma_be_value_bound(old(bytes)@.subrange(0, 1));
            assert(pow256(1) == 256) by {
                assert(pow256(0) == 1);
            }
        }
        v as u8
    }
}

impl BytecodeReader for u16 {
    open spec fn byte_width() -> nat {
        2
    }

    open spec fn as_nat(&self) -> nat {
        *self as nat
    }

    fn read(bytes: &mut &[u8]) -> (r: u16) {
        let v = take_be(bytes, 2);
        proof {
            lemma_be_value_bound(old(bytes)@.subrange(0, 2));
            lemma_pow256_eight();
        }
        v as u16
    }
}

impl BytecodeReader for u32 {
    open spec fn byte_width() -> nat {
        4
    }

    open spec fn as_nat(&self) -> nat {
        *self as nat
    }

    fn read(bytes: &mut &[u8]) -> (r: u32) {
        let v = take_be(bytes, 4);
        proof {
            lemma_be_value_bound(old(bytes)@.subrange(0, 4));
            lemma_pow256_eight();
        }
        v as u32
    }
}

impl BytecodeReader for u64 {
    open spec fn byte_width() -> nat {
        8
    }

    open spec fn as_nat(&self) -> nat {
        *self as nat
    }

    fn read(bytes: &mut &[u8]) -> (r: u64) {
        take_be(bytes, 8)
    }
}

/// Consumes `n` bytes from the front of `bytes` and returns their big-endian value.
fn take_be(bytes: &mut &[u8], n: usize) -> (r: u64)
    requires
        n <= 8,
        old(bytes)@.len() >= n,
    ensures
        r as nat == be_value(old(bytes)@.subrange(0, n as int)),
        final(bytes)@ == old(bytes)@.subrange(n as int, old(bytes)@.len() as int),
{
    let (head, rest) = bytes.split_at(n);
    *bytes = rest;
    let ghost s = head@;
    let mut v: u64 = 0;
    let mut i: usize = 0;
    proof {
        lemma_pow256_eight();
    }
    while i < n
        invariant
            n <= 8,
            s == head@,
            s.len() == n,
            i <= n,
            v as nat == be_value(s.subrange(0, i as int)),
            pow256(8) == 0x1_0000_0000_0000_0000,
        decreases n - i,
    {
        proof {
            let prefix = s.subrange(0, i as int);
            lemma_be_value_bound(prefix);
            lemma_pow256_monotone(i as nat, 7);
            assert(s.subrange(0, i + 1).drop_last() =~= prefix);
            let p = pow256(i as nat);
            let x = v as nat;
            let c = head@[i as int] as nat;
            assert(x * 256 + c < 0x1_0000_0000_0000_0000) by (nonlinear_arith)
                requires
                    x < p,
                    p <= pow256(7),
                    pow256(8) == pow256(7) * 256,
                    pow256(8) == 0x1_0000_0000_0000_0000,
                    c < 256,
            ;
        }
        v = v * 256 + head[i] as u64;
        i = i + 1;
    }
    assert(s.subrange(0, n as int) =~= s);
    v
}

/// `256^8` is `2^64`.
proof fn lemma_pow256_eight()
    ensures
        pow256(2) == 0x1_0000,
        pow256(4) == 0x1_0000_0000,
        pow256(7) == 0x100_0000_0000_0000,
        pow256(8) == 0x1_0000_0000_0000_0000,
{
    assert(pow256(0) == 1);
    assert(pow256(1) == 0x100);
    assert(pow256(2) == 0x1_0000);
    assert(pow256(3) == 0x100_0000);
    assert(pow256(4) == 0x1_0000_0000);
    assert(pow256(5) == 0x100_0000_0000);
    assert(pow256(6) == 0x1_0000_0000_0000);
    assert(pow256(7) == 0x100_0000_0000_0000);
}

/// `256^i` grows with `i`.
proof fn lemma_pow256_monotone(i: nat, j: nat)
    requires
        i <= j,
    ensures
        pow256(i) <= pow256(j),
    decreases j,
{
    if i < j {
        lemma_pow256_monotone(i, (j - 1) as nat);
    }
}

} // verus!
