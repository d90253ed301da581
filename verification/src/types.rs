//! Plain values shared by the quote book: token amounts, trading pairs, 32-byte
//! identifiers and their byte-wise comparison and hex rendering.

use vstd::prelude::*;

verus! {

/// A token identifier.
pub type TokenId = u64;

/// A block index in the ledger.
pub type BlockIndex = u64;

/// An amount of a given token.
#[derive(Clone, Copy, Debug, PartialEq, Eq, Structural)]
pub struct Amount {
    pub value: u64,
    pub token_id: TokenId,
}

/// A single trading pair.
#[derive(Clone, Copy, Debug, PartialEq, Eq, Hash, Structural)]
pub struct Pair {
    /// The token id being offered "for sale".
    pub base_token_id: TokenId,
    /// The token id that needs to be paid to satisfy the offering.
    pub counter_token_id: TokenId,
}

/// A unique identifier for a single quote: the digest of the whole signed contingent input.
#[derive(Clone, Copy, Debug, PartialEq, Eq, Hash)]
pub struct QuoteId(pub [u8; 32]);

/// A unique identifier for a single order: the digest of the whole signed contingent input.
#[derive(Clone, Copy, Debug, PartialEq, Eq, Hash)]
pub struct OrderId(pub [u8; 32]);

/// The key image of a ring-signed input; it is spent at most once on the ledger.
#[derive(Clone, Copy, Debug, PartialEq, Eq, Hash)]
pub struct KeyImage(pub [u8; 32]);

impl QuoteId {
    pub open spec fn bytes(self) -> Seq<u8> {
        self.0@
    }

    /// The identifier's bytes.
    pub fn to_vec(&self) -> (r: Vec<u8>)
        ensures
            r@ == self.bytes(),
    {
        bytes32_to_vec(&self.0)
    }

    /// Whether two identifiers hold the same bytes.
    pub fn same_as(&self, other: &QuoteId) -> (r: bool)
        ensures
            r == (self.bytes() == other.bytes()),
            r == (*self == *other),
    {
        let r = bytes32_eq(&self.0, &other.0);
        proof {
            if r {
                assert(self.0 =~= other.0);
            }
        }
        r
    }

    /// Lower-case hex rendering of the identifier's bytes, as its `Display` shows it.
    pub fn to_hex(&self) -> (r: String)
        ensures
            r@ == hex_seq(self.bytes()),
    {
        hex_encode(self.0.as_slice())
    }
}

impl OrderId {
    pub open spec fn bytes(self) -> Seq<u8> {
        self.0@
    }

    /// The identifier's bytes.
    pub fn to_vec(&self) -> (r: Vec<u8>)
        ensures
            r@ == self.bytes(),
    {
        bytes32_to_vec(&self.0)
    }

    /// Whether two identifiers hold the same bytes.
    pub fn same_as(&self, other: &OrderId) -> (r: bool)
        ensures
            r == (self.bytes() == other.bytes()),
            r == (*self == *other),
    {
        let r = bytes32_eq(&self.0, &other.0);
        proof {
            if r {
                assert(self.0 =~= other.0);
            }
        }
        r
    }
}

impl KeyImage {
    pub open spec fn bytes(self) -> Seq<u8> {
        self.0@
    }

    /// Whether two key images hold the same bytes.
    pub fn same_as(&self, other: &KeyImage) -> (r: bool)
        ensures
            r == (self.bytes() == other.bytes()),
            r == (*self == *other),
    {
        let r = bytes32_eq(&self.0, &other.0);
        proof {
            if r {
                assert(self.0 =~= other.0);
            }
        }
        r
    }
}

/// Byte-wise equality of two 32-byte arrays.
pub fn bytes32_eq(a: &[u8; 32], b: &[u8; 32]) -> (r: bool)
    ensures
        r == (a@ == b@),
{
    let mut i: usize = 0;
    while i < 32
        invariant
            0 <= i <= 32,
            a@.len() == 32,
            b@.len() == 32,
            forall|j: int| 0 <= j < i ==> a@[j] == b@[j],
        decreases 32 - i,
    {
        if a[i] != b[i] {
            return false;
        }
        i = i + 1;
    }
    assert(a@ =~= b@);
    true
}

/// The 32 bytes of an array, as a vector.
pub fn bytes32_to_vec(a: &[u8; 32]) -> (r: Vec<u8>)
    ensures
        r@ == a@,
{
    let mut v: Vec<u8> = Vec::new();
    let mut i: usize = 0;
    while i < 32
        invariant
            0 <= i <= 32,
            a@.len() == 32,
            v@ == a@.subrange(0, i as int),
        decreases 32 - i,
    {
        v.push(a[i]);
        i = i + 1;
        assert(v@ =~= a@.subrange(0, i as int));
    }
    assert(a@.subrange(0, 32) =~= a@);
    v
}

/// Copies a slice of exactly 32 bytes into an array.
pub fn bytes32_from_slice(s: &[u8]) -> (r: [u8; 32])
    requires
        s@.len() == 32,
    ensures
        r@ == s@,
{
    let mut a: [u8; 32] = [0u8; 32];
    let mut i: usize = 0;
    while i < 32
        invariant
            0 <= i <= 32,
            s@.len() == 32,
            a@.len() == 32,
            forall|j: int| 0 <= j < i ==> a@[j] == s@[j],
        decreases 32 - i,
    {
        a[i] = s[i];
        i = i + 1;
    }
    assert(a@ =~= s@);
    a
}

/// Lexicographic order of two byte sequences of equal length: the sign of the first
/// difference, or zero when they are equal.
pub open spec fn lex_order(a: Seq<u8>, b: Seq<u8>) -> int
    decreases a.len(),
{
    if a.len() == 0 || b.len() == 0 {
        0
    } else if a[0] < b[0] {
        -1
    } else if a[0] > b[0] {
        1
    } else {
        lex_order(a.drop_first(), b.drop_first())
    }
}

/// Lexicographic comparison of two 32-byte arrays: -1, 0 or 1.
pub fn bytes32_order(a: &[u8; 32], b: &[u8; 32]) -> (r: i8)
    ensures
        r == lex_order(a@, b@),
{
    let mut i: usize = 0;
    assert(a@.subrange(0, 32) =~= a@);
    assert(b@.subrange(0, 32) =~= b@);
    while i < 32
        invariant
            0 <= i <= 32,
            a@.len() == 32,
            b@.len() == 32,
            forall|j: int| 0 <= j < i ==> a@[j] == b@[j],
            lex_order(a@, b@) == lex_order(a@.subrange(i as int, 32), b@.subrange(i as int, 32)),
        decreases 32 - i,
    {
        assert(a@.subrange(i as int, 32).drop_first() =~= a@.subrange(i + 1, 32));
        assert(b@.subrange(i as int, 32).drop_first() =~= b@.subrange(i + 1, 32));
        if a[i] < b[i] {
            return -1;
        }
        if a[i] > b[i] {
            return 1;
        }
        i = i + 1;
    }
    assert(a@.subrange(32, 32).len() == 0);
    0
}

/// Lexicographic comparison is zero exactly on equal sequences of equal length.
pub proof fn lemma_lex_order_zero(a: Seq<u8>, b: Seq<u8>)
    requires
        a.len() == b.len(),
    ensures
        (lex_order(a, b) == 0) <==> (a == b),
        lex_order(a, b) == -lex_order(b, a),
        lex_order(a, a) == 0,
    decreases a.len(),
{
    if a.len() > 0 {
        lemma_lex_order_zero(a.drop_first(), b.drop_first());
        lemma_lex_order_zero(a.drop_first(), a.drop_first());
        if a[0] == b[0] && a.drop_first() == b.drop_first() {
            assert forall|i: int| 0 <= i < a.len() implies a[i] == b[i] by {
                if i > 0 {
                    assert(a[i] == a.drop_first()[i - 1]);
                    assert(b[i] == b.drop_first()[i - 1]);
                }
            }
            assert(a =~= b);
        }
        if a == b {
            assert(a.drop_first() == b.drop_first());
        }
    } else {
        assert(a =~= b);
    }
}

/// Lexicographic comparison yields -1, 0 or 1.
pub proof fn lemma_lex_order_range(a: Seq<u8>, b: Seq<u8>)
    ensures
        -1 <= lex_order(a, b) <= 1,
    decreases a.len(),
{
    if a.len() > 0 && b.len() > 0 && a[0] == b[0] {
        lemma_lex_order_range(a.drop_first(), b.drop_first());
    }
}

/// Lexicographic comparison is transitive.
pub proof fn lemma_lex_order_transitive(a: Seq<u8>, b: Seq<u8>, c: Seq<u8>)
    requires
        a.len() == b.len(),
        b.len() == c.len(),
        lex_order(a, b) <= 0,
        lex_order(b, c) <= 0,
    ensures
        lex_order(a, c) <= 0,
        lex_order(a, b) < 0 || lex_order(b, c) < 0 ==> lex_order(a, c) < 0,
    decreases a.len(),
{
    if a.len() > 0 && a[0] == b[0] && b[0] == c[0] {
        lemma_lex_order_transitive(a.drop_first(), b.drop_first(), c.drop_first());
    }
}

/// The lower-case hex digit of a value below 16.
pub open spec fn hex_char(n: int) -> char {
    if n < 10 {
        (48 + n) as char
    } else {
        (87 + n) as char
    }
}

/// Lower-case hex encoding: two digits per byte, the high half first.
pub open spec fn hex_seq(s: Seq<u8>) -> Seq<char>
    decreases s.len(),
{
    if s.len() == 0 {
        Seq::empty()
    } else {
        seq![hex_char(s[0] as int / 16), hex_char(s[0] as int % 16)] + hex_seq(s.drop_first())
    }
}

/// Calls `hex::encode`, which renders each byte as two lower-case hex digits
/// (`0123456789abcdef`), the high half of the byte first.
#[verifier::external_body]
fn hex_encode(bytes: &[u8]) -> (r: String)
    ensures
        r@ == hex_seq(bytes@),
{
    hex::encode(bytes)
}

} // verus!
