//! Fixed-width integers as byte sequences, in both byte orders.

use vstd::prelude::*;

verus! {

/// The 16-bit number whose little-endian bytes are `b0`, `b1`.
#[verifier::opaque]
pub open spec fn u16_le(b0: u8, b1: u8) -> u16 {
    (b0 + 0x100 * b1) as u16
}

/// The 16-bit number whose big-endian bytes are `b0`, `b1`.
#[verifier::opaque]
pub open spec fn u16_be(b0: u8, b1: u8) -> u16 {
    (0x100 * b0 + b1) as u16
}

/// The 32-bit number whose little-endian bytes are `b0` to `b3`.
#[verifier::opaque]
pub open spec fn u32_le(b0: u8, b1: u8, b2: u8, b3: u8) -> u32 {
    (b0 + 0x100 * b1 + 0x1_0000 * b2 + 0x100_0000 * b3) as u32
}

/// The 64-bit number with the given low and high halves.
#[verifier::opaque]
pub open spec fn u64_halves(low: u32, high: u32) -> u64 {
    (low + 0x1_0000_0000 * high) as u64
}

/// `v` as two bytes, low byte first.
#[verifier::opaque]
pub open spec fn le16(v: u16) -> Seq<u8> {
    seq![(v % 0x100) as u8, (v / 0x100) as u8]
}

/// `v` as two bytes, high byte first.
#[verifier::opaque]
pub open spec fn be16(v: u16) -> Seq<u8> {
    seq![(v / 0x100) as u8, (v % 0x100) as u8]
}

/// `v` as four bytes, low byte first.
#[verifier::opaque]
pub open spec fn le32(v: u32) -> Seq<u8> {
    seq![
        (v % 0x100) as u8,
        (v / 0x100 % 0x100) as u8,
        (v / 0x1_0000 % 0x100) as u8,
        (v / 0x100_0000) as u8,
    ]
}

/// `v` as eight bytes, low byte first.
#[verifier::opaque]
pub open spec fn le64(v: u64) -> Seq<u8> {
    le32((v % 0x1_0000_0000) as u32) + le32((v / 0x1_0000_0000) as u32)
}

/// The little-endian 16-bit number at offset `p` of `b`.
pub open spec fn u16_le_at(b: Seq<u8>, p: int) -> u16 {
    u16_le(b[p], b[p + 1])
}

/// The big-endian 16-bit number at offset `p` of `b`.
pub open spec fn u16_be_at(b: Seq<u8>, p: int) -> u16 {
    u16_be(b[p], b[p + 1])
}

/// The little-endian 32-bit number at offset `p` of `b`.
pub open spec fn u32_le_at(b: Seq<u8>, p: int) -> u32 {
    u32_le(b[p], b[p + 1], b[p + 2], b[p + 3])
}

/// The little-endian 64-bit number at offset `p` of `b`.
pub open spec fn u64_le_at(b: Seq<u8>, p: int) -> u64 {
    u64_halves(u32_le_at(b, p), u32_le_at(b, p + 4))
}

/// The low 8 bits of a number.
pub open spec fn low8(n: int) -> u8 {
    (n % 0x100) as u8
}

/// The low 16 bits of a number.
pub open spec fn low16(n: int) -> u16 {
    (n % 0x1_0000) as u16
}

/// The low 32 bits of a number.
pub open spec fn low32(n: int) -> u32 {
    (n % 0x1_0000_0000) as u32
}

/// The low 8 bits of a length.
pub fn len8(n: usize) -> (v: u8)
    ensures
        v == low8(n as int),
{
    (n % 0x100) as u8
}

/// The low 16 bits of a length.
pub fn len16(n: usize) -> (v: u16)
    ensures
        v == low16(n as int),
{
    (n % 0x1_0000) as u16
}

/// The low 32 bits of a length.
pub fn len32(n: usize) -> (v: u32)
    ensures
        v == low32(n as int),
{
    (n as u64 % 0x1_0000_0000) as u32
}

/// The low 16 bits of a length and `more`.
pub fn len16_plus(n: usize, more: u16) -> (v: u16)
    ensures
        v == low16(n + more),
{
    (((n % 0x1_0000) as u32 + more as u32) % 0x1_0000) as u16
}

/// The low 32 bits of a length and `more`.
pub fn len32_plus(n: usize, more: u32) -> (v: u32)
    ensures
        v == low32(n + more),
{
    ((n as u64 % 0x1_0000_0000 + more as u64) % 0x1_0000_0000) as u32
}

/// Whether two byte sequences are the same.
pub fn same(a: &[u8], b: &[u8]) -> (r: bool)
    ensures
        r == (a@ == b@),
{
    if a.len() != b.len() {
        return false;
    }
    let mut i: usize = 0;
    while i < a.len()
        invariant
            i <= a@.len(),
            a@.len() == b@.len(),
            forall|j: int| 0 <= j < i ==> a@[j] == b@[j],
        decreases a@.len() - i,
    {
        if a[i] != b[i] {
            assert(a@[i as int] != b@[i as int]);
            return false;
        }
        i = i + 1;
    }
    assert(a@ =~= b@);
    true
}

/// How many bytes come before the first zero byte.
pub open spec fn until_zero(b: Seq<u8>) -> int
    decreases b.len(),
{
    if b.len() == 0 || b[0] == 0 {
        0
    } else {
        1 + until_zero(b.skip(1))
    }
}

/// Where the first zero byte stands is where no byte before it is zero.
pub proof fn lemma_until_zero(b: Seq<u8>, n: int)
    requires
        0 <= n <= b.len(),
        forall|i: int| 0 <= i < n ==> b[i] != 0,
        n == b.len() || b[n] == 0,
    ensures
        until_zero(b) == n,
    decreases b.len(),
{
    if n > 0 {
        assert(b[0] != 0);
        let t = b.skip(1);
        assert forall|i: int| 0 <= i < n - 1 implies t[i] != 0 by {
            assert(b[i + 1] != 0);
        }
        lemma_until_zero(t, n - 1);
    }
}

/// How many bytes come before the first zero byte.
pub fn find_zero(b: &[u8]) -> (n: usize)
    ensures
        n == until_zero(b@),
        n <= b@.len(),
{
    let mut i: usize = 0;
    while i < b.len()
        invariant
            i <= b@.len(),
            forall|j: int| 0 <= j < i ==> b@[j] != 0,
        decreases b@.len() - i,
    {
        if b[i] == 0 {
            proof {
                lemma_until_zero(b@, i as int);
            }
            return i;
        }
        i = i + 1;
    }
    proof {
        lemma_until_zero(b@, i as int);
    }
    i
}

/// `n` zero bytes.
pub open spec fn zeros(n: nat) -> Seq<u8> {
    Seq::new(n, |i: int| 0u8)
}

/// Reading two little-endian bytes gives back the number they were made from.
pub broadcast proof fn lemma_le16(v: u16)
    ensures
        (#[trigger] le16(v)).len() == 2,
        u16_le(le16(v)[0], le16(v)[1]) == v,
{
    reveal(le16);
    reveal(u16_le);
}

/// Reading two big-endian bytes gives back the number they were made from.
pub broadcast proof fn lemma_be16(v: u16)
    ensures
        (#[trigger] be16(v)).len() == 2,
        u16_be(be16(v)[0], be16(v)[1]) == v,
{
    reveal(be16);
    reveal(u16_be);
}

/// Reading four little-endian bytes gives back the number they were made from.
pub broadcast proof fn lemma_le32(v: u32)
    ensures
        (#[trigger] le32(v)).len() == 4,
        u32_le(le32(v)[0], le32(v)[1], le32(v)[2], le32(v)[3]) == v,
{
    reveal(le32);
    reveal(u32_le);
}

/// Reading eight little-endian bytes gives back the number they were made from.
pub broadcast proof fn lemma_le64(v: u64)
    ensures
        (#[trigger] le64(v)).len() == 8,
        u64_halves(
            u32_le(le64(v)[0], le64(v)[1], le64(v)[2], le64(v)[3]),
            u32_le(le64(v)[4], le64(v)[5], le64(v)[6], le64(v)[7]),
        ) == v,
{
    reveal(le64);
    reveal(u64_halves);
    lemma_le32((v % 0x1_0000_0000) as u32);
    lemma_le32((v / 0x1_0000_0000) as u32);
}

/// The bytes `s` stand in `b` from offset `p` on.
#[verifier::opaque]
pub open spec fn holds_at(b: Seq<u8>, p: int, s: Seq<u8>) -> bool {
    0 <= p && p + s.len() <= b.len() && b.subrange(p, p + s.len()) == s
}

/// Any sequence stands at the start of itself.
pub proof fn lemma_holds_self(s: Seq<u8>)
    ensures
        holds_at(s, 0, s),
{
    reveal(holds_at);
    assert(s.subrange(0, s.len() as int) =~= s);
}

/// Of two sequences that stand one after the other, each stands where it does.
pub broadcast proof fn lemma_holds_add(b: Seq<u8>, p: int, x: Seq<u8>, y: Seq<u8>)
    requires
        #[trigger] holds_at(b, p, x + y),
    ensures
        holds_at(b, p, x),
        holds_at(b, p + x.len(), y),
{
    reveal(holds_at);
    let s = b.subrange(p, p + (x + y).len());
    assert(b.subrange(p, p + x.len()) =~= s.subrange(0, x.len() as int));
    assert(x =~= s.subrange(0, x.len() as int));
    assert(b.subrange(p + x.len(), p + x.len() + y.len()) =~= s.subrange(
        x.len() as int,
        s.len() as int,
    ));
    assert(y =~= s.subrange(x.len() as int, s.len() as int));
}

/// What stands in a sequence lies within its bounds, byte for byte.
pub broadcast proof fn lemma_holds_bounds(b: Seq<u8>, p: int, s: Seq<u8>)
    requires
        #[trigger] holds_at(b, p, s),
    ensures
        0 <= p,
        p + s.len() <= b.len(),
        b.subrange(p, p + s.len()) == s,
{
    reveal(holds_at);
}

pub broadcast proof fn lemma_holds_u8(b: Seq<u8>, p: int, v: u8)
    requires
        #[trigger] holds_at(b, p, seq![v]),
    ensures
        b[p] == v,
{
    reveal(holds_at);
    assert(b.subrange(p, p + 1)[0] == b[p]);
}

pub broadcast proof fn lemma_holds_le16(b: Seq<u8>, p: int, v: u16)
    requires
        #[trigger] holds_at(b, p, le16(v)),
    ensures
        u16_le(b[p], b[p + 1]) == v,
{
    reveal(holds_at);
    lemma_le16(v);
    let s = b.subrange(p, p + 2);
    assert(s[0] == b[p] && s[1] == b[p + 1]);
}

pub broadcast proof fn lemma_holds_be16(b: Seq<u8>, p: int, v: u16)
    requires
        #[trigger] holds_at(b, p, be16(v)),
    ensures
        u16_be(b[p], b[p + 1]) == v,
{
    reveal(holds_at);
    lemma_be16(v);
    let s = b.subrange(p, p + 2);
    assert(s[0] == b[p] && s[1] == b[p + 1]);
}

pub broadcast proof fn lemma_holds_le32(b: Seq<u8>, p: int, v: u32)
    requires
        #[trigger] holds_at(b, p, le32(v)),
    ensures
        u32_le(b[p], b[p + 1], b[p + 2], b[p + 3]) == v,
{
    reveal(holds_at);
    lemma_le32(v);
    let s = b.subrange(p, p + 4);
    assert(s[0] == b[p] && s[1] == b[p + 1] && s[2] == b[p + 2] && s[3] == b[p + 3]);
}

pub broadcast proof fn lemma_holds_le64(b: Seq<u8>, p: int, v: u64)
    requires
        #[trigger] holds_at(b, p, le64(v)),
    ensures
        u64_le_at(b, p) == v,
{
    reveal(holds_at);
    lemma_le64(v);
    let s = b.subrange(p, p + 8);
    assert(forall|i: int| 0 <= i < 8 ==> s[i] == b[p + i]);
    assert(s[0] == b[p] && s[1] == b[p + 1] && s[2] == b[p + 2] && s[3] == b[p + 3]);
    assert(s[4] == b[p + 4] && s[5] == b[p + 4 + 1] && s[6] == b[p + 4 + 2] && s[7] == b[p + 4 + 3]);
}

/// Takes apart a layout that stands in a byte sequence, field by field.
pub broadcast group group_holds {
    lemma_holds_add,
    lemma_holds_bounds,
    lemma_holds_u8,
    lemma_holds_le16,
    lemma_holds_be16,
    lemma_holds_le32,
    lemma_holds_le64,
}

pub broadcast group group_bytes {
    lemma_le16,
    lemma_be16,
    lemma_le32,
    lemma_le64,
}

/// Little-endian numbers have their lowest byte first, and big-endian ones
/// their highest.
pub proof fn law_byte_order(b: Seq<u8>, p: int)
    ensures
        u16_le_at(b, p) == b[p] + 256 * b[p + 1],
        u16_be_at(b, p) == 256 * b[p] + b[p + 1],
        u32_le_at(b, p) == b[p] + 256 * b[p + 1] + 65536 * b[p + 2] + 16777216 * b[p + 3],
        u64_le_at(b, p) == b[p] + 256 * b[p + 1] + 65536 * b[p + 2] + 16777216 * b[p + 3]
            + 4294967296 * (b[p + 4] + 256 * b[p + 5] + 65536 * b[p + 6] + 16777216 * b[p + 7]),
{
    reveal(u16_le);
    reveal(u16_be);
    reveal(u32_le);
    reveal(u64_halves);
    assert(u32_le_at(b, p + 4) == b[p + 4] + 256 * b[p + 5] + 65536 * b[p + 6] + 16777216 * b[p
        + 7]);
}

/// A number is written as the bytes that add up to it.
pub proof fn law_number_bytes(n16: u16, n32: u32, n64: u64)
    ensures
        le16(n16).len() == 2,
        n16 == le16(n16)[0] + 256 * le16(n16)[1],
        be16(n16).len() == 2,
        n16 == 256 * be16(n16)[0] + be16(n16)[1],
        le32(n32).len() == 4,
        n32 == le32(n32)[0] + 256 * le32(n32)[1] + 65536 * le32(n32)[2] + 16777216 * le32(n32)[3],
        le64(n64).len() == 8,
        n64 == le64(n64)[0] + 256 * le64(n64)[1] + 65536 * le64(n64)[2] + 16777216 * le64(n64)[3]
            + 4294967296 * (le64(n64)[4] + 256 * le64(n64)[5] + 65536 * le64(n64)[6] + 16777216
            * le64(n64)[7]),
{
    lemma_le16(n16);
    lemma_be16(n16);
    lemma_le32(n32);
    lemma_le64(n64);
    law_byte_order(le16(n16), 0);
    law_byte_order(be16(n16), 0);
    law_byte_order(le32(n32), 0);
    law_byte_order(le64(n64), 0);
    assert(u64_le_at(le64(n64), 0) == n64);
}

/// The low bits of a length that fits are the length.
pub proof fn law_low_bits(n: int)
    ensures
        0 <= n < 256 ==> low8(n) == n,
        0 <= n < 65536 ==> low16(n) == n,
        0 <= n < 4294967296 ==> low32(n) == n,
{
}

/// What comes before the first zero has none, and it is the first.
pub proof fn law_find_zero(b: &[u8], n: usize, i: int, c: &[u8], same_bytes: bool)
    requires
        call_ensures(find_zero, (b,), n),
        call_ensures(same, (b, c), same_bytes),
    ensures
        n <= b@.len(),
        0 <= i < n ==> b@[i] != 0,
        n < b@.len() ==> b@[n as int] == 0,
        same_bytes <==> b@ == c@,
{
    lemma_first_zero(b@, i);
}

proof fn lemma_first_zero(b: Seq<u8>, i: int)
    ensures
        0 <= until_zero(b) <= b.len(),
        0 <= i < until_zero(b) ==> b[i] != 0,
        until_zero(b) < b.len() ==> b[until_zero(b)] == 0,
    decreases b.len(),
{
    if b.len() > 0 && b[0] != 0 {
        lemma_first_zero(b.skip(1), i - 1);
    }
}

} // verus!
