//! UTF-16 text with its units in little-endian order: fixed-width fields
//! padded with NUL, and plain runs of units.

use vstd::prelude::*;
use vstd::slice::slice_subrange;

use crate::bytes;
use crate::cursor::WriteBuf;

verus! {

broadcast use bytes::group_bytes;

/// The one or two UTF-16 units of a character.
pub open spec fn char_units(c: char) -> Seq<u16> {
    if (c as u32) < 0x1_0000 {
        seq![c as u16]
    } else {
        seq![
            (0xD800 + (c as u32 - 0x1_0000) / 0x400) as u16,
            (0xDC00 + (c as u32 - 0x1_0000) % 0x400) as u16,
        ]
    }
}

/// The UTF-16 units of a text.
pub open spec fn units(s: Seq<char>) -> Seq<u16>
    decreases s.len(),
{
    if s.len() == 0 {
        seq![]
    } else {
        char_units(s[0]) + units(s.skip(1))
    }
}

/// What stands for a surrogate that has no partner.
pub open spec fn replacement() -> char {
    '\u{FFFD}'
}

/// The character of a leading and a trailing surrogate.
pub open spec fn pair_char(high: u16, low: u16) -> char {
    (0x1_0000 + (high - 0xD800) * 0x400 + (low - 0xDC00)) as char
}

/// The text of UTF-16 units; each surrogate without a partner becomes
/// U+FFFD.
pub open spec fn text(u: Seq<u16>) -> Seq<char>
    decreases u.len(),
{
    if u.len() == 0 {
        seq![]
    } else if u[0] < 0xD800 || u[0] > 0xDFFF {
        seq![u[0] as char] + text(u.skip(1))
    } else if u[0] >= 0xDC00 || u.len() < 2 || u[1] < 0xDC00 || u[1] > 0xDFFF {
        seq![replacement()] + text(u.skip(1))
    } else {
        seq![pair_char(u[0], u[1])] + text(u.skip(2))
    }
}

/// Units as bytes, the low byte of each first.
pub open spec fn unit_bytes(u: Seq<u16>) -> Seq<u8> {
    Seq::new((2 * u.len()) as nat, |i: int| bytes::le16(u[i / 2])[i % 2])
}

/// The units of bytes; a last odd byte is left out.
pub open spec fn byte_units(b: Seq<u8>) -> Seq<u16> {
    Seq::new((b.len() / 2) as nat, |i: int| bytes::u16_le_at(b, 2 * i))
}

/// How many units come before the first NUL unit.
pub open spec fn until_nul(u: Seq<u16>) -> int
    decreases u.len(),
{
    if u.len() == 0 || u[0] == 0 {
        0
    } else {
        1 + until_nul(u.skip(1))
    }
}

/// The text of a field that ends at the first NUL unit, or at its end.
pub open spec fn fixed_text(b: Seq<u8>) -> Seq<char> {
    text(byte_units(b).take(until_nul(byte_units(b))))
}

/// The units of a field of `max_units` units that holds `s`: cut short so that
/// one NUL at least follows, then filled up with NUL.
pub open spec fn fixed_units(s: Seq<char>, max_units: nat) -> Seq<u16> {
    let u = units(s);
    let keep = if max_units == 0 {
        0
    } else if u.len() < max_units {
        u.len() as int
    } else {
        max_units - 1
    };
    Seq::new(max_units, |i: int| if i < keep { u[i] } else { 0 })
}

/// The bytes of units with one more unit.
pub proof fn lemma_unit_bytes_push(u: Seq<u16>, v: u16)
    ensures
        unit_bytes(u.push(v)) == unit_bytes(u) + bytes::le16(v),
{
    let l = unit_bytes(u.push(v));
    let r = unit_bytes(u) + bytes::le16(v);
    assert forall|i: int| 0 <= i < l.len() implies l[i] == r[i] by {
        if i < 2 * u.len() {
            assert(u.push(v)[i / 2] == u[i / 2]);
        } else {
            assert(i / 2 == u.len() as int);
        }
    }
    assert(l =~= r);
}

proof fn lemma_until_nul_bounds(u: Seq<u16>)
    ensures
        0 <= until_nul(u) <= u.len(),
        forall|i: int| 0 <= i < until_nul(u) ==> u[i] != 0,
        until_nul(u) < u.len() ==> u[until_nul(u)] == 0,
    decreases u.len(),
{
    if u.len() != 0 && u[0] != 0 {
        let t = u.skip(1);
        lemma_until_nul_bounds(t);
        assert forall|i: int| 0 <= i < until_nul(u) implies u[i] != 0 by {
            if i > 0 {
                assert(u[i] == t[i - 1]);
            }
        }
        if until_nul(u) < u.len() {
            assert(u[until_nul(u)] == t[until_nul(t)]);
        }
    }
}

proof fn lemma_until_nul_unique(u: Seq<u16>, n: int)
    requires
        0 <= n <= u.len(),
        forall|i: int| 0 <= i < n ==> u[i] != 0,
        n == u.len() || u[n] == 0,
    ensures
        until_nul(u) == n,
{
    lemma_until_nul_bounds(u);
    if until_nul(u) < n {
        assert(u[until_nul(u)] != 0);
    } else if n < until_nul(u) {
        assert(u[n] != 0);
    }
}

/// Writes the UTF-16 units of one character.
fn write_char(out: &mut Vec<u8>, c: char, Ghost(done): Ghost<Seq<u16>>)
    requires
        old(out)@ == unit_bytes(done),
    ensures
        final(out)@ == unit_bytes(done + char_units(c)),
{
    let v: u32 = c as u32;
    if v < 0x1_0000 {
        out.write_u16_le(v as u16);
        proof {
            lemma_unit_bytes_push(done, v as u16);
            assert(done + char_units(c) =~= done.push(v as u16));
        }
    } else {
        let high: u16 = (0xD800 + (v - 0x1_0000) / 0x400) as u16;
        let low: u16 = (0xDC00 + (v - 0x1_0000) % 0x400) as u16;
        out.write_u16_le(high);
        out.write_u16_le(low);
        proof {
            lemma_unit_bytes_push(done, high);
            lemma_unit_bytes_push(done.push(high), low);
            assert(done + char_units(c) =~= done.push(high).push(low));
        }
    }
}

/// The units of `s`, low byte first, with no terminator.
pub fn encode_units(s: &str) -> (out: Vec<u8>)
    ensures
        out@ == unit_bytes(units(s@)),
{
    let mut out: Vec<u8> = Vec::new();
    let ghost mut done: Seq<u16> = Seq::empty();
    proof {
        assert(unit_bytes(done) =~= out@);
        assert(s@.skip(0) =~= s@);
        assert(done + units(s@) =~= units(s@));
    }
    for c in iter: s.chars()
        invariant
            iter.seq() == s@,
            out@ == unit_bytes(done),
            done + units(s@.skip(iter.index())) == units(s@),
    {
        let ghost i = iter.index();
        write_char(&mut out, c, Ghost(done));
        proof {
            assert(s@.skip(i)[0] == c);
            assert(s@.skip(i).skip(1) =~= s@.skip(i + 1));
            assert(done + units(s@.skip(i)) =~= (done + char_units(c)) + units(s@.skip(i + 1)));
            done = done + char_units(c);
        }
    }
    proof {
        assert(s@.skip(s@.len() as int).len() == 0);
        assert(done =~= units(s@));
    }
    out
}

/// `s` in exactly `byte_len` bytes: whole units, cut short so that one NUL unit at
/// least follows, then filled up with NUL.
pub open spec fn fixed_wire(s: Seq<char>, byte_len: nat) -> Seq<u8> {
    unit_bytes(fixed_units(s, byte_len / 2)) + bytes::zeros(byte_len % 2)
}

/// Writes `s` in exactly `byte_len` bytes: cut short so that one NUL unit at least
/// follows, then filled up with NUL.
pub fn write_fixed(out: &mut Vec<u8>, s: &str, byte_len: usize)
    ensures
        final(out)@ == old(out)@ + fixed_wire(s@, byte_len as nat),
        final(out)@.len() == old(out)@.len() + byte_len,
{
    let ghost before = out@;
    let max_units: usize = byte_len / 2;
    let encoded: Vec<u8> = encode_units(s);
    let n: usize = encoded.len() / 2;
    let keep: usize = if max_units == 0 {
        0
    } else if n < max_units {
        n
    } else {
        max_units - 1
    };
    out.write_slice(slice_subrange(encoded.as_slice(), 0, 2 * keep));
    let mut i: usize = keep;
    while i < max_units
        invariant
            keep <= i <= max_units,
            keep <= n,
            n == units(s@).len(),
            encoded@ == unit_bytes(units(s@)),
            out@ == before + encoded@.subrange(0, 2 * keep) + bytes::zeros((2 * (i - keep)) as nat),
        decreases max_units - i,
    {
        out.write_u16_le(0);
        i = i + 1;
        proof {
            reveal(bytes::le16);
            assert(out@ =~= before + encoded@.subrange(0, 2 * keep) + bytes::zeros(
                (2 * (i - keep)) as nat,
            ));
        }
    }
    proof {
        reveal(bytes::le16);
        let f = fixed_units(s@, max_units as nat);
        let r = encoded@.subrange(0, 2 * keep) + bytes::zeros((2 * (max_units - keep)) as nat);
        assert forall|j: int| 0 <= j < r.len() implies unit_bytes(f)[j] == r[j] by {
            if j < 2 * keep {
                assert(f[j / 2] == units(s@)[j / 2]);
            } else {
                assert(f[j / 2] == 0);
            }
        }
        assert(unit_bytes(f) =~= r);
        assert(out@ =~= before + unit_bytes(f));
    }
    if byte_len % 2 == 1 {
        out.write_u8(0);
    }
    assert(out@ =~= before + fixed_wire(s@, byte_len as nat));
}

/// The text of the first `n` units of `b`.
fn decode_prefix(b: &[u8], n: usize) -> (s: String)
    requires
        n <= b@.len() / 2,
    ensures
        s@ == text(byte_units(b@).take(n as int)),
{
    let mut s: String = String::new();
    let ghost u = byte_units(b@).take(n as int);
    let mut i: usize = 0;
    assert(u.skip(0) =~= u);
    assert(s@ + text(u) =~= text(u));
    while i < n
        invariant
            i <= n,
            n <= b@.len() / 2,
            u == byte_units(b@).take(n as int),
            s@ + text(u.skip(i as int)) == text(u),
        decreases n - i,
    {
        let ghost at = i as int;
        let ghost before = s@;
        let first: u16 = unit_at(b, i);
        let second: u16 = if i + 1 < n {
            unit_at(b, i + 1)
        } else {
            0
        };
        proof {
            assert(u.skip(at)[0] == first);
            assert(at + 1 < n ==> u.skip(at)[1] == second);
            assert(u.skip(at).skip(1) =~= u.skip(at + 1));
            assert(at + 1 < n ==> u.skip(at).skip(2) =~= u.skip(at + 2));
        }
        let paired: bool = 0xD800 <= first && first < 0xDC00 && 0xDC00 <= second && second <= 0xDFFF;
        let code: u32 = if paired {
            0x1_0000 + (first as u32 - 0xD800) * 0x400 + (second as u32 - 0xDC00)
        } else {
            first as u32
        };
        let c: char = match char::from_u32(code) {
            Some(c) => c,
            None => '\u{FFFD}',
        };
        s.push(c);
        i = if paired {
            i + 2
        } else {
            i + 1
        };
        proof {
            assert(text(u.skip(at)) == seq![c] + text(u.skip(i as int)));
            assert(s@ + text(u.skip(i as int)) =~= before + (seq![c] + text(u.skip(i as int))));
        }
    }
    assert(u.skip(n as int).len() == 0);
    assert(s@ =~= text(u));
    s
}

fn unit_at(b: &[u8], i: usize) -> (u: u16)
    requires
        i < b@.len() / 2,
    ensures
        u == byte_units(b@)[i as int],
{
    proof {
        reveal(bytes::u16_le);
    }
    assert(b.len() == b@.len());
    b[2 * i] as u16 + b[2 * i + 1] as u16 * 0x100
}

/// The text up to the first NUL unit, or all of it where there is none.
pub fn read_fixed(bytes: &[u8]) -> (s: String)
    ensures
        s@ == fixed_text(bytes@),
{
    let n: usize = bytes.len() / 2;
    let mut i: usize = 0;
    while i < n
        invariant
            i <= n,
            n == bytes@.len() / 2,
            forall|j: int| 0 <= j < i ==> byte_units(bytes@)[j] != 0,
        decreases n - i,
    {
        if unit_at(bytes, i) == 0 {
            proof {
                lemma_until_nul_unique(byte_units(bytes@), i as int);
            }
            return decode_prefix(bytes, i);
        }
        i = i + 1;
    }
    proof {
        lemma_until_nul_unique(byte_units(bytes@), n as int);
    }
    decode_prefix(bytes, n)
}

/// The text of all the units, with no search for NUL.
pub fn decode_units(bytes: &[u8]) -> (s: String)
    ensures
        s@ == text(byte_units(bytes@)),
{
    let n: usize = bytes.len() / 2;
    assert(byte_units(bytes@).take(n as int) =~= byte_units(bytes@));
    decode_prefix(bytes, n)
}

/// The units of bytes made from units are those units.
pub proof fn law_unit_bytes(u: Seq<u16>)
    ensures
        byte_units(unit_bytes(u)) == u,
{
    let b = unit_bytes(u);
    assert forall|i: int| 0 <= i < u.len() implies byte_units(b)[i] == u[i] by {
        assert((2 * i) / 2 == i && (2 * i) % 2 == 0);
        assert((2 * i + 1) / 2 == i && (2 * i + 1) % 2 == 1);
        assert(b[2 * i] == bytes::le16(u[i])[0]);
        assert(b[2 * i + 1] == bytes::le16(u[i])[1]);
    }
    assert(byte_units(b) =~= u);
}

proof fn lemma_text_char(c: char, rest: Seq<u16>)
    ensures
        text(char_units(c) + rest) == seq![c] + text(rest),
        char_units(c).len() >= 1,
        c != '\0' ==> forall|i: int| 0 <= i < char_units(c).len() ==> char_units(c)[i] != 0,
{
    let u = char_units(c) + rest;
    if (c as u32) < 0x1_0000 {
        assert(u.skip(1) =~= rest);
        assert(u[0] as char == c);
    } else {
        assert(u.skip(2) =~= rest);
        let d = c as u32 - 0x1_0000;
        assert(u[0] == 0xD800 + d / 0x400);
        assert(u[1] == 0xDC00 + d % 0x400);
        assert(pair_char(u[0], u[1]) == c);
    }
}

/// Encoding a text as units and decoding them gives the text back, whatever
/// characters it holds.
pub proof fn law_text_units(s: Seq<char>)
    ensures
        text(units(s)) == s,
    decreases s.len(),
{
    if s.len() > 0 {
        law_text_units(s.skip(1));
        lemma_text_char(s[0], units(s.skip(1)));
        assert(seq![s[0]] + s.skip(1) =~= s);
    }
}

proof fn lemma_units_no_nul(s: Seq<char>)
    requires
        forall|i: int| 0 <= i < s.len() ==> #[trigger] s[i] != '\0',
    ensures
        forall|i: int| 0 <= i < units(s).len() ==> #[trigger] units(s)[i] != 0,
    decreases s.len(),
{
    if s.len() > 0 {
        lemma_units_no_nul(s.skip(1));
        lemma_text_char(s[0], seq![]);
        assert(s[0] != '\0');
        let l = char_units(s[0]);
        assert forall|i: int| 0 <= i < units(s).len() implies #[trigger] units(s)[i] != 0 by {
            if i >= l.len() {
                assert(units(s)[i] == units(s.skip(1))[i - l.len()]);
            } else {
                assert(units(s)[i] == l[i]);
            }
        }
    }
}

/// A fixed field is filled to its end, and ends with a NUL, however long the text
/// is.
pub proof fn law_fixed_ends(s: Seq<char>, byte_len: nat)
    ensures
        fixed_wire(s, byte_len).len() == byte_len,
        byte_len >= 2 ==> fixed_units(s, byte_len / 2).len() == byte_len / 2,
        byte_len >= 2 ==> fixed_units(s, byte_len / 2).last() == 0,
{
}

/// A text without NUL that fits a fixed field with room for one NUL is read
/// back from it.
pub proof fn law_fixed(s: Seq<char>, max_units: nat)
    requires
        units(s).len() < max_units,
        forall|i: int| 0 <= i < s.len() ==> #[trigger] s[i] != '\0',
    ensures
        fixed_text(unit_bytes(fixed_units(s, max_units))) == s,
{
    let f = fixed_units(s, max_units);
    let n = units(s).len() as int;
    law_unit_bytes(f);
    assert(until_nul(f) == n) by {
        lemma_units_no_nul(s);
        assert forall|i: int| 0 <= i < n implies f[i] != 0 by {
            assert(units(s)[i] != 0);
        }
        lemma_until_nul_unique(f, n);
    }
    assert(f.take(n) =~= units(s));
    law_text_units(s);
}

/// A character of the basic plane is one unit, with its own number; another is two,
/// of which the first has the high ten bits of what it is past 65536, above 0xD800,
/// and the second the low ten, above 0xDC00.
pub proof fn law_char_units(c: char)
    ensures
        (c as u32) < 65536 ==> char_units(c).len() == 1 && char_units(c)[0] == c as u32,
        (c as u32) >= 65536 ==> {
            &&& char_units(c).len() == 2
            &&& 0xD800 <= char_units(c)[0] < 0xDC00
            &&& 0xDC00 <= char_units(c)[1] < 0xE000
            &&& 65536 + 1024 * (char_units(c)[0] - 0xD800) + (char_units(c)[1] - 0xDC00) == c as u32
        },
{
}

/// The units of a text are those of its characters in order, each as two bytes, the
/// low one first.
pub proof fn law_units(s: Seq<char>, c: char, u: Seq<u16>, i: int)
    requires
        0 <= i < u.len(),
    ensures
        units(seq![]) == Seq::<u16>::empty(),
        units(seq![c] + s) == char_units(c) + units(s),
        unit_bytes(u).len() == 2 * u.len(),
        unit_bytes(u)[2 * i] + 256 * unit_bytes(u)[2 * i + 1] == u[i],
        byte_units(unit_bytes(u)) == u,
{
    assert((seq![c] + s).skip(1) =~= s);
    law_unit_at(u, i);
    law_unit_bytes(u);
}

/// Every unit stands at its place, the low byte first.
pub proof fn law_unit_at(u: Seq<u16>, i: int)
    requires
        0 <= i < u.len(),
    ensures
        unit_bytes(u).len() == 2 * u.len(),
        unit_bytes(u)[2 * i] + 256 * unit_bytes(u)[2 * i + 1] == u[i],
{
    bytes::law_number_bytes(u[i], 0, 0);
    assert((2 * i) / 2 == i && (2 * i + 1) / 2 == i && (2 * i) % 2 == 0 && (2 * i + 1) % 2 == 1);
}

/// A unit outside the surrogates is the character with its number, a leading and a
/// trailing surrogate together are the one past the basic plane that they spell, and
/// a surrogate alone is U+FFFD.
pub proof fn law_text(a: u16, b: u16, rest: Seq<u16>)
    ensures
        text(seq![]) == Seq::<char>::empty(),
        a < 0xD800 || a >= 0xE000 ==> text(seq![a] + rest) == seq![a as char] + text(rest),
        0xD800 <= a < 0xDC00 && 0xDC00 <= b < 0xE000 ==> text(seq![a, b] + rest) == seq![
            (65536 + 1024 * (a - 0xD800) + (b - 0xDC00)) as char,
        ] + text(rest),
        0xDC00 <= a < 0xE000 ==> text(seq![a] + rest) == seq!['\u{FFFD}'] + text(rest),
        0xD800 <= a < 0xDC00 && (rest.len() == 0 || rest[0] < 0xDC00 || rest[0] >= 0xE000)
            ==> text(seq![a] + rest) == seq!['\u{FFFD}'] + text(rest),
{
    assert((seq![a] + rest).skip(1) =~= rest);
    assert((seq![a, b] + rest).skip(2) =~= rest);
}

/// A field ends at the first NUL unit, or at its end.
pub proof fn law_fixed_text(b: &[u8], s: String, all: String, n: int)
    requires
        call_ensures(read_fixed, (b,), s),
        call_ensures(decode_units, (b,), all),
        0 <= n <= b@.len() / 2,
        forall|i: int|
            0 <= i < n ==> (#[trigger] b@[2 * i]) != 0 || b@[2 * i + 1] != 0,
        n < b@.len() / 2 ==> b@[2 * n] == 0 && b@[2 * n + 1] == 0,
    ensures
        s@ == text(byte_units(b@).take(n)),
        all@ == text(byte_units(b@)),
{
    let u = byte_units(b@);
    assert forall|i: int| 0 <= i < n implies u[i] != 0 by {
        bytes::law_byte_order(b@, 2 * i);
        assert(b@[2 * i] != 0 || b@[2 * i + 1] != 0);
    }
    if n < u.len() {
        bytes::law_byte_order(b@, 2 * n);
    }
    lemma_until_nul_is(u, n);
}

proof fn lemma_until_nul_is(u: Seq<u16>, n: int)
    requires
        0 <= n <= u.len(),
        forall|i: int| 0 <= i < n ==> u[i] != 0,
        n < u.len() ==> u[n] == 0,
    ensures
        until_nul(u) == n,
    decreases u.len(),
{
    if n > 0 {
        assert(u[0] != 0);
        let t = u.skip(1);
        assert forall|i: int| 0 <= i < n - 1 implies t[i] != 0 by {
            assert(u[i + 1] != 0);
        }
        lemma_until_nul_is(t, n - 1);
    }
}

} // verus!
