//! Storing a `u64` as its 8 big-endian bytes in a binary column: SQLite has no unsigned
//! 64-bit integers, and it compares binary blobs byte by byte, so the bytes sort as the
//! numbers do.

use vstd::prelude::*;
use crate::types::lex_order;

verus! {

/// `256` to the power `n`.
pub open spec fn pow256(n: nat) -> nat
    decreases n,
{
    if n == 0 {
        1
    } else {
        256 * pow256((n - 1) as nat)
    }
}

/// The `n` big-endian bytes of `v` (the low `n` bytes when `v` is larger).
pub open spec fn be_bytes(v: nat, n: nat) -> Seq<u8>
    decreases n,
{
    if n == 0 {
        Seq::empty()
    } else {
        be_bytes(v / 256, (n - 1) as nat).push((v % 256) as u8)
    }
}

/// The number that big-endian bytes encode.
pub open spec fn be_value(s: Seq<u8>) -> nat
    decreases s.len(),
{
    if s.len() == 0 {
        0
    } else {
        be_value(s.drop_last()) * 256 + s.last() as nat
    }
}

/// The sign of `x - y`.
pub open spec fn sign_of(x: int, y: int) -> int {
    if x < y {
        -1
    } else if x > y {
        1
    } else {
        0
    }
}

pub proof fn lemma_be_bytes_len(v: nat, n: nat)
    ensures
        be_bytes(v, n).len() == n,
    decreases n,
{
    if n > 0 {
        lemma_be_bytes_len(v / 256, (n - 1) as nat);
    }
}

proof fn lemma_pow256_pos(n: nat)
    ensures
        pow256(n) > 0,
    decreases n,
{
    if n > 0 {
        lemma_pow256_pos((n - 1) as nat);
    }
}

/// Decoding the encoding of a number that fits gives the number back.
pub proof fn lemma_be_roundtrip(v: nat, n: nat)
    requires
        v < pow256(n),
    ensures
        be_value(be_bytes(v, n)) == v,
    decreases n,
{
    if n > 0 {
        let m = (n - 1) as nat;
        lemma_div256_lt(v, m);
        lemma_be_roundtrip(v / 256, m);
        let s = be_bytes(v, n);
        assert(s.drop_last() == be_bytes(v / 256, m));
        assert(s.last() == (v % 256) as u8);
        vstd::arithmetic::div_mod::lemma_fundamental_div_mod(v as int, 256);
    }
}

/// Encoding the number that bytes encode gives the bytes back.
pub proof fn lemma_be_encode_decode(s: Seq<u8>)
    ensures
        be_bytes(be_value(s), s.len()) == s,
        be_value(s) < pow256(s.len()),
    decreases s.len(),
{
    if s.len() > 0 {
        let d = s.drop_last();
        lemma_be_encode_decode(d);
        let v = be_value(s);
        assert(v == be_value(d) * 256 + s.last() as nat);
        assert(v / 256 == be_value(d) && v % 256 == s.last() as nat) by {
            vstd::arithmetic::div_mod::lemma_fundamental_div_mod_converse(
                v as int,
                256,
                be_value(d) as int,
                s.last() as int,
            );
        }
        assert(be_bytes(v, s.len()) =~= s);
        assert(v < pow256(s.len())) by (nonlinear_arith)
            requires
                v == be_value(d) * 256 + s.last() as nat,
                be_value(d) < pow256(d.len()),
                s.last() < 256,
                pow256(s.len()) == 256 * pow256(d.len()),
        ;
    }
}

/// Lexicographic order of two equal-length sequences with one byte appended each: the
/// order of the prefixes, or of the appended bytes when the prefixes are equal.
proof fn lemma_lex_order_push(a: Seq<u8>, b: Seq<u8>, x: u8, y: u8)
    requires
        a.len() == b.len(),
    ensures
        lex_order(a.push(x), b.push(y)) == (if lex_order(a, b) != 0 {
            lex_order(a, b)
        } else {
            sign_of(x as int, y as int)
        }),
    decreases a.len(),
{
    if a.len() > 0 {
        assert(a.push(x).drop_first() =~= a.drop_first().push(x));
        assert(b.push(y).drop_first() =~= b.drop_first().push(y));
        assert(a.push(x)[0] == a[0] && b.push(y)[0] == b[0]);
        lemma_lex_order_push(a.drop_first(), b.drop_first(), x, y);
    } else {
        assert(a.push(x).drop_first() =~= Seq::<u8>::empty());
        assert(b.push(y).drop_first() =~= Seq::<u8>::empty());
        assert(lex_order(Seq::<u8>::empty(), Seq::<u8>::empty()) == 0);
        assert(a.push(x)[0] == x && b.push(y)[0] == y);
    }
}

/// Big-endian encodings of equal length order as the numbers do.
pub proof fn lemma_be_order(u: nat, v: nat, n: nat)
    requires
        u < pow256(n),
        v < pow256(n),
    ensures
        lex_order(be_bytes(u, n), be_bytes(v, n)) == sign_of(u as int, v as int),
    decreases n,
{
    if n == 0 {
        assert(u == 0 && v == 0);
    } else {
        let m = (n - 1) as nat;
        lemma_pow256_pos(m);
        lemma_div256_lt(u, m);
        lemma_div256_lt(v, m);
        lemma_be_order(u / 256, v / 256, m);
        lemma_be_bytes_len(u / 256, m);
        lemma_be_bytes_len(v / 256, m);
        lemma_lex_order_push(be_bytes(u / 256, m), be_bytes(v / 256, m), (u % 256) as u8, (v % 256) as u8);
        vstd::arithmetic::div_mod::lemma_fundamental_div_mod(u as int, 256);
        vstd::arithmetic::div_mod::lemma_fundamental_div_mod(v as int, 256);
    }
}

/// The high part of a number below `256^(m+1)` lies below `256^m`.
proof fn lemma_div256_lt(v: nat, m: nat)
    requires
        v < pow256(m + 1),
    ensures
        v / 256 < pow256(m),
{
    lemma_pow256_pos(m);
    assert(pow256(m + 1) == 256 * pow256(m));
    assert(v / 256 < pow256(m)) by (nonlinear_arith)
        requires
            v < 256 * pow256(m),
            pow256(m) > 0,
    ;
}

/// `256^8 = 2^64`.
proof fn lemma_pow256_8()
    ensures
        pow256(8) == 18446744073709551616,
{
    reveal_with_fuel(pow256, 9);
}

/// A `u64` stored as its 8 big-endian bytes.
#[derive(Clone, Copy, Debug, PartialEq, Eq, Hash)]
pub struct VecU64(u64);

/// Why bytes read from the database are not a stored `u64`.
#[derive(Clone, Copy, Debug, PartialEq, Eq, Structural)]
pub enum VecU64Error {
    /// VecU64: Invalid array length
    InvalidArrayLength,
}

impl VecU64 {
    pub closed spec fn value(&self) -> u64 {
        self.0
    }

    /// Wrap a number.
    pub fn new(v: u64) -> (r: Self)
        ensures
            r.value() == v,
    {
        VecU64(v)
    }

    /// The wrapped number.
    pub fn get(&self) -> (r: u64)
        ensures
            r == self.value(),
    {
        self.0
    }

    /// The bytes stored in the database: the number's 8 big-endian bytes.
    pub fn to_sql(&self) -> (r: Vec<u8>)
        ensures
            r@ == be_bytes(self.value() as nat, 8),
            r@.len() == 8,
    {
        proof {
            lemma_be_bytes_len(self.0 as nat, 8);
        }
        encode_be(self.0, 8)
    }

    /// Read the number back from the database's bytes, which must be exactly 8.
    pub fn from_sql(bytes: &Vec<u8>) -> (r: Result<VecU64, VecU64Error>)
        ensures
            bytes@.len() != 8 ==> r == Err::<VecU64, VecU64Error>(VecU64Error::InvalidArrayLength),
            bytes@.len() == 8 ==> r is Ok && r->Ok_0.value() == be_value(bytes@),
    {
        if bytes.len() != 8 {
            return Err(VecU64Error::InvalidArrayLength);
        }
        let mut acc: u64 = 0;
        let mut i: usize = 0;
        proof {
            assert(bytes@.take(0) =~= Seq::<u8>::empty());
            lemma_pow256_8();
        }
        while i < 8
            invariant
                bytes@.len() == 8,
                0 <= i <= 8,
                acc == be_value(bytes@.take(i as int)),
                acc < pow256(i as nat),
                pow256(8) == 18446744073709551616,
            decreases 8 - i,
        {
            proof {
                assert(bytes@.take(i + 1).drop_last() =~= bytes@.take(i as int));
                lemma_pow_le(i as nat);
            }
            let b = bytes[i];
            assert(acc * 256 + b < pow256((i + 1) as nat)) by (nonlinear_arith)
                requires
                    acc < pow256(i as nat),
                    b < 256,
                    pow256((i + 1) as nat) == 256 * pow256(i as nat),
            ;
            acc = acc * 256 + b as u64;
            i = i + 1;
        }
        assert(bytes@.take(8) =~= bytes@);
        Ok(VecU64(acc))
    }
}

/// Powers of 256 grow with the exponent, up to `256^8 = 2^64`.
proof fn lemma_pow_le(i: nat)
    requires
        i < 8,
    ensures
        pow256(i + 1) <= pow256(8),
        pow256(i + 1) == 256 * pow256(i),
    decreases 8 - i,
{
    if i + 1 < 8 {
        lemma_pow_le(i + 1);
        lemma_pow256_pos(i + 1);
    }
}

/// The `n` big-endian bytes of `v`.
fn encode_be(v: u64, n: usize) -> (r: Vec<u8>)
    ensures
        r@ == be_bytes(v as nat, n as nat),
    decreases n,
{
    if n == 0 {
        Vec::new()
    } else {
        let mut r = encode_be(v / 256, n - 1);
        r.push((v % 256) as u8);
        r
    }
}

/// Reading back stored bytes gives the stored number.
pub proof fn lemma_vec_u64_roundtrip(v: u64)
    ensures
        be_value(be_bytes(v as nat, 8)) == v,
{
    lemma_pow256_8();
    lemma_be_roundtrip(v as nat, 8);
}

/// Stored bytes compare byte by byte as the stored numbers compare.
pub proof fn lemma_vec_u64_order(u: u64, v: u64)
    ensures
        lex_order(be_bytes(u as nat, 8), be_bytes(v as nat, 8)) == sign_of(u as int, v as int),
{
    lemma_pow256_8();
    lemma_be_order(u as nat, v as nat, 8);
}

} // verus!
