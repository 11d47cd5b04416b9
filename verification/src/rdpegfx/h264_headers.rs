//! The parameter sets of an H.264 stream, for encoders that leave them out:
//! Constrained Baseline, progressive, level 4.1, and a size in whole blocks of
//! sixteen by sixteen.

use vstd::prelude::*;

use crate::bytes;
use crate::cursor::WriteBuf;

verus! {

/// The number that bits make, the highest first.
pub open spec fn value(bits: Seq<bool>) -> nat
    decreases bits.len(),
{
    if bits.len() == 0 {
        0
    } else {
        2 * value(bits.drop_last()) + (if bits.last() {
            1nat
        } else {
            0
        })
    }
}

/// The lowest `n` bits of a number, the highest first.
pub open spec fn bits_of(v: nat, n: nat) -> Seq<bool>
    decreases n,
{
    if n == 0 {
        seq![]
    } else {
        bits_of(v / 2, (n - 1) as nat).push(v % 2 == 1)
    }
}

/// How many bits a number takes; one at least.
pub open spec fn width(v: nat) -> nat
    decreases v,
{
    if v < 2 {
        1
    } else {
        1 + width(v / 2)
    }
}

/// A number of any size: one more than it in bits, after as many zeros as there
/// are bits, less one.
pub open spec fn ue(v: nat) -> Seq<bool> {
    Seq::new((width(v + 1) - 1) as nat, |i: int| false) + bits_of(v + 1, width(v + 1))
}

/// A number with a sign, as one without: positive ones are odd.
pub open spec fn se(v: int) -> Seq<bool> {
    ue(
        if v <= 0 {
            (-2 * v) as nat
        } else {
            (2 * v - 1) as nat
        },
    )
}

/// Bits up to the end of a byte: one that is set, and then none.
pub open spec fn closed_off(bits: Seq<bool>) -> Seq<bool> {
    let n = bits.len() + 1;
    bits.push(true) + Seq::new(((8 - n as int % 8) % 8) as nat, |i: int| false)
}

/// Bytes from bits, as many as are whole.
pub open spec fn packed(bits: Seq<bool>) -> Seq<u8> {
    Seq::new(bits.len() / 8, |i: int| value(bits.subrange(8 * i, 8 * i + 8)) as u8)
}

/// What a stream says of itself as a whole.
pub open spec fn sps_bits(mb_width: nat, mb_height: nat) -> Seq<bool> {
    bits_of(66, 8) + bits_of(0xC0, 8) + bits_of(41, 8) + ue(0) + ue(0) + ue(0) + ue(0) + ue(1)
        + seq![false] + ue((mb_width - 1) as nat) + ue((mb_height - 1) as nat) + seq![true] + seq![
        true,
    ] + seq![false] + seq![false]
}

/// What a stream says of its pictures.
pub open spec fn pps_bits() -> Seq<bool> {
    ue(0) + ue(0) + seq![false] + seq![false] + ue(0) + ue(0) + ue(0) + seq![false] + bits_of(0, 2)
        + se(0) + se(0) + se(0) + seq![false] + seq![false] + seq![false]
}

/// A size in blocks; one at least.
pub open spec fn blocks(size: u16) -> nat {
    if size < 16 {
        1
    } else {
        (size / 16) as nat
    }
}

pub open spec fn start_code() -> Seq<u8> {
    seq![0u8, 0, 0, 1]
}

pub open spec fn sps_pps_wire(coded_w: u16, coded_h: u16) -> Seq<u8> {
    start_code() + seq![0x67u8] + packed(closed_off(sps_bits(blocks(coded_w), blocks(coded_h))))
        + start_code() + seq![0x68u8] + packed(closed_off(pps_bits()))
}

/// A number has no more bits than it takes, and they make it again.
pub proof fn law_bits(v: nat)
    ensures
        bits_of(v, width(v)).len() == width(v),
        value(bits_of(v, width(v))) == v,
    decreases v,
{
    if v < 2 {
        assert(bits_of(v / 2, 0) =~= seq![]);
        assert(bits_of(v, 1) =~= seq![v % 2 == 1]);
        assert(bits_of(v, 1).drop_last() =~= seq![]);
        assert(value(bits_of(v, 1).drop_last()) == 0);
        assert(bits_of(v, 1).last() == (v % 2 == 1));
    } else {
        law_bits(v / 2);
        let b = bits_of(v, width(v));
        assert(b.drop_last() =~= bits_of(v / 2, width(v / 2)));
        assert(b.last() == (v % 2 == 1));
        assert(value(b) == 2 * value(b.drop_last()) + (if b.last() {
            1nat
        } else {
            0
        }));
    }
}

proof fn lemma_bits_len(v: nat, n: nat)
    ensures
        bits_of(v, n).len() == n,
    decreases n,
{
    if n > 0 {
        lemma_bits_len(v / 2, (n - 1) as nat);
    }
}

proof fn lemma_value_bound(bits: Seq<bool>)
    ensures
        value(bits) < pow2(bits.len()),
    decreases bits.len(),
{
    if bits.len() > 0 {
        lemma_value_bound(bits.drop_last());
    }
}

/// Puts bits into bytes, the highest first.
struct BitWriter {
    bytes: Vec<u8>,
    bit: u8,
    cur: u8,
    bits: Ghost<Seq<bool>>,
}

impl BitWriter {
    spec fn wf(&self) -> bool {
        let n = 8 * self.bytes@.len();
        &&& self.bit < 8
        &&& self.bits@.len() == n + self.bit
        &&& self.cur == value(self.bits@.subrange(n as int, self.bits@.len() as int))
        &&& forall|i: int|
            0 <= i < self.bytes@.len() ==> #[trigger] self.bytes@[i] == value(
                self.bits@.subrange(8 * i, 8 * i + 8),
            )
    }

    fn new() -> (w: Self)
        ensures
            w.wf(),
            w.bits@ == Seq::<bool>::empty(),
    {
        let w = Self { bytes: Vec::new(), bit: 0, cur: 0, bits: Ghost(Seq::empty()) };
        assert(w.bits@.subrange(0, 0) =~= Seq::empty());
        w
    }

    fn write_bit(&mut self, v: bool)
        requires
            old(self).wf(),
        ensures
            final(self).wf(),
            final(self).bits@ == old(self).bits@ + seq![v],
    {
        let ghost had = self.bits@;
        assert(had + seq![v] =~= had.push(v));
        let ghost n = 8 * self.bytes@.len() as int;
        let ghost tail = had.subrange(n, had.len() as int);
        let ghost now = had.push(v);
        proof {
            lemma_value_bound(tail);
            assert(now.subrange(n, now.len() as int) =~= tail.push(v));
            assert(tail.push(v).drop_last() =~= tail);
            lemma_value_bound(tail.push(v));
            lemma_pow2_grows(tail.len(), 7);
            assert(pow2(7) == 128) by {
                reveal_with_fuel(pow2, 8);
            }
        }
        self.cur = self.cur * 2 + if v {
            1
        } else {
            0
        };
        self.bit = self.bit + 1;
        self.bits = Ghost(now);
        proof {
            assert forall|i: int| 0 <= i < self.bytes@.len() implies #[trigger] self.bytes@[i]
                == value(now.subrange(8 * i, 8 * i + 8)) by {
                assert(now.subrange(8 * i, 8 * i + 8) =~= had.subrange(8 * i, 8 * i + 8));
            }
        }
        if self.bit == 8 {
            let ghost old_bytes = self.bytes@;
            self.bytes.push(self.cur);
            self.bit = 0;
            self.cur = 0;
            proof {
                assert(now.subrange(n + 8, now.len() as int) =~= Seq::empty());
                assert forall|i: int| 0 <= i < self.bytes@.len() implies #[trigger] self.bytes@[i]
                    == value(now.subrange(8 * i, 8 * i + 8)) by {
                    if i < old_bytes.len() {
                        assert(self.bytes@[i] == old_bytes[i]);
                    } else {
                        assert(now.subrange(8 * i, 8 * i + 8) =~= tail.push(v));
                    }
                }
            }
        }
    }

    fn write_bits(&mut self, v: u32, n: u8)
        requires
            old(self).wf(),
        ensures
            final(self).wf(),
            final(self).bits@ == old(self).bits@ + bits_of(v as nat, n as nat),
        decreases n,
    {
        let ghost had = self.bits@;
        if n > 0 {
            self.write_bits(v / 2, n - 1);
            self.write_bit(v % 2 == 1);
        }
        assert(self.bits@ =~= had + bits_of(v as nat, n as nat));
    }

    fn write_ue(&mut self, v: u32)
        requires
            old(self).wf(),
            v < u32::MAX,
        ensures
            final(self).wf(),
            final(self).bits@ == old(self).bits@ + ue(v as nat),
    {
        let ghost had = self.bits@;
        let one_more: u32 = v + 1;
        let mut zeros: u8 = 0;
        let mut rest: u32 = one_more;
        let ghost all = width(one_more as nat);
        assert(self.bits@ =~= had + Seq::new(zeros as nat, |i: int| false));
        while rest >= 2
            invariant
                self.wf(),
                1 <= rest,
                zeros <= 31,
                all == zeros + width(rest as nat),
                rest as int * pow2(zeros as nat) <= u32::MAX,
                self.bits@ == had + Seq::new(zeros as nat, |i: int| false),
            decreases rest,
        {
            proof {
                lemma_pow2_room(rest as int, zeros as nat);
            }
            self.write_bit(false);
            zeros = zeros + 1;
            rest = rest / 2;
            assert(self.bits@ =~= had + Seq::new(zeros as nat, |i: int| false));
        }
        self.write_bits(one_more, zeros + 1);
        assert(self.bits@ =~= had + ue(v as nat));
    }

    fn write_se(&mut self, v: i32)
        requires
            old(self).wf(),
            -0x4000_0000 < v < 0x4000_0000,
        ensures
            final(self).wf(),
            final(self).bits@ == old(self).bits@ + se(v as int),
    {
        let mapped: u32 = if v <= 0 {
            (2 * (0 - v)) as u32
        } else {
            (2 * v - 1) as u32
        };
        self.write_ue(mapped);
    }

    fn write_rbsp_trailing(&mut self)
        requires
            old(self).wf(),
        ensures
            final(self).wf(),
            final(self).bits@ == closed_off(old(self).bits@),
            final(self).bit == 0,
    {
        let ghost had = self.bits@;
        self.write_bit(true);
        let ghost mut n: nat = 0;
        let ghost first = (had.len() + 1) as int % 8;
        assert(self.bits@ =~= had.push(true) + Seq::new(n, |i: int| false));
        while self.bit != 0
            invariant
                self.wf(),
                self.bits@ == had.push(true) + Seq::new(n, |i: int| false),
                n < 8,
                first == (had.len() + 1) as int % 8,
                first == 0 ==> n == 0 && self.bit == 0,
                first > 0 ==> (self.bit == 0 && n == 8 - first) || (self.bit == first + n && n < 8
                    - first),
            decreases 8 - n,
        {
            self.write_bit(false);
            proof {
                n = n + 1;
            }
            assert(self.bits@ =~= had.push(true) + Seq::new(n, |i: int| false));
        }
        assert(self.bits@ =~= closed_off(had));
    }

    fn into_bytes(self) -> (out: Vec<u8>)
        requires
            self.wf(),
            self.bit == 0,
        ensures
            out@ == packed(self.bits@),
    {
        assert(self.bytes@ =~= packed(self.bits@));
        self.bytes
    }
}

spec fn pow2(n: nat) -> int
    decreases n,
{
    if n == 0 {
        1
    } else {
        2 * pow2((n - 1) as nat)
    }
}

proof fn lemma_pow2_positive(n: nat)
    ensures
        pow2(n) >= n + 1,
    decreases n,
{
    if n > 0 {
        lemma_pow2_positive((n - 1) as nat);
    }
}

proof fn lemma_pow2_grows(m: nat, n: nat)
    requires
        m <= n,
    ensures
        pow2(m) <= pow2(n),
    decreases n,
{
    lemma_pow2_positive(n);
    if m < n {
        lemma_pow2_grows(m, (n - 1) as nat);
        lemma_pow2_positive((n - 1) as nat);
    }
}

proof fn lemma_pow2_room(rest: int, zeros: nat)
    requires
        rest >= 2,
        rest * pow2(zeros) <= u32::MAX,
    ensures
        zeros < 31,
        (rest / 2) * pow2(zeros + 1) <= u32::MAX,
{
    lemma_pow2_positive(zeros);
    assert(2 * pow2(zeros) <= rest * pow2(zeros)) by (nonlinear_arith)
        requires
            rest >= 2,
            pow2(zeros) >= 0,
    ;
    if zeros >= 31 {
        lemma_pow2_grows(31, zeros);
        assert(pow2(31) == 0x8000_0000) by {
            reveal_with_fuel(pow2, 32);
        }
    }
    assert((rest / 2) * (2 * pow2(zeros)) <= rest * pow2(zeros)) by (nonlinear_arith)
        requires
            rest >= 2,
            pow2(zeros) >= 0,
    ;
}

fn sps_rbsp(mb_width: u32, mb_height: u32) -> (out: Vec<u8>)
    requires
        1 <= mb_width <= 0xFFFF,
        1 <= mb_height <= 0xFFFF,
    ensures
        out@ == packed(closed_off(sps_bits(mb_width as nat, mb_height as nat))),
{
    let mut b = BitWriter::new();
    b.write_bits(66, 8);  // profile: Baseline
    b.write_bits(0xC0, 8);  // constraints
    b.write_bits(41, 8);  // level
    b.write_ue(0);  // number of this set
    b.write_ue(0);  // length of a frame number, less four
    b.write_ue(0);  // kind of picture order
    b.write_ue(0);  // length of a picture order, less four
    b.write_ue(1);  // pictures to refer to
    b.write_bit(false);  // no gaps in frame numbers
    b.write_ue(mb_width - 1);
    b.write_ue(mb_height - 1);
    b.write_bit(true);  // whole frames only
    b.write_bit(true);  // inference in blocks of eight by eight
    b.write_bit(false);  // no cropping
    b.write_bit(false);  // nothing more
    assert(Seq::<bool>::empty() + bits_of(66, 8) =~= bits_of(66, 8));
    assert(b.bits@ == sps_bits(mb_width as nat, mb_height as nat));
    b.write_rbsp_trailing();
    b.into_bytes()
}

fn pps_rbsp() -> (out: Vec<u8>)
    ensures
        out@ == packed(closed_off(pps_bits())),
{
    let mut b = BitWriter::new();
    b.write_ue(0);  // number of this set
    b.write_ue(0);  // number of the set for the stream
    b.write_bit(false);  // variable length codes
    b.write_bit(false);  // no picture order for fields
    b.write_ue(0);  // slice groups, less one
    b.write_ue(0);  // references in the first list, less one
    b.write_ue(0);  // references in the second list, less one
    b.write_bit(false);  // no weights
    b.write_bits(0, 2);  // no weights
    b.write_se(0);  // quantizer, less 26
    b.write_se(0);  // switching quantizer, less 26
    b.write_se(0);  // offset for colour
    b.write_bit(false);  // no control of deblocking
    b.write_bit(false);  // prediction is not constrained
    b.write_bit(false);  // no redundant pictures
    assert(Seq::<bool>::empty() + ue(0) =~= ue(0));
    assert(b.bits@ == pps_bits());
    b.write_rbsp_trailing();
    b.into_bytes()
}

fn count_blocks(size: u16) -> (n: u32)
    ensures
        n == blocks(size),
        1 <= n <= 0xFFFF,
{
    if size < 16 {
        1
    } else {
        (size / 16) as u32
    }
}

/// Both parameter sets, each after a start code, for a coded size in whole
/// blocks.
pub fn annex_b_sps_pps(coded_w: u16, coded_h: u16) -> (out: Vec<u8>)
    ensures
        out@ == sps_pps_wire(coded_w, coded_h),
{
    let code: [u8; 4] = [0, 0, 0, 1];
    assert(code@ =~= start_code());
    let mut out: Vec<u8> = Vec::new();
    out.write_slice(&code);
    out.write_u8(0x67);
    out.write_slice(sps_rbsp(count_blocks(coded_w), count_blocks(coded_h)).as_slice());
    out.write_slice(&code);
    out.write_u8(0x68);
    out.write_slice(pps_rbsp().as_slice());
    assert(out@ =~= sps_pps_wire(coded_w, coded_h));
    out
}

/// A number of any size is written as one more than it, in binary, behind as many zeros
/// as it has binary places after the first.
pub proof fn law_ue(v: nat)
    ensures
        ue(v).len() == 2 * width(v + 1) - 1,
        forall|i: int| 0 <= i < width(v + 1) - 1 ==> #[trigger] ue(v)[i] == false,
        value(ue(v).skip(width(v + 1) - 1)) == v + 1,
        ue(v)[width(v + 1) - 1] == true,
{
    law_bits(v + 1);
    lemma_bits_len(v + 1, width(v + 1));
    assert(ue(v).skip(width(v + 1) - 1) =~= bits_of(v + 1, width(v + 1)));
    lemma_first_bit(v + 1);
}

proof fn lemma_first_bit(v: nat)
    requires
        v >= 1,
    ensures
        width(v) >= 1,
        bits_of(v, width(v)).len() == width(v),
        bits_of(v, width(v))[0] == true,
    decreases v,
{
    lemma_bits_len(v, width(v));
    if v >= 2 {
        lemma_first_bit(v / 2);
        lemma_bits_len(v / 2, width(v / 2));
    } else {
        reveal_with_fuel(bits_of, 2);
    }
}

/// Both parameter sets begin with a start code and their kind, 0x67 and 0x68. The first
/// has the profile 66, the constraints 0xC0 and the level 41 in its first three bytes.
/// The second is always the same.
pub proof fn law_parameter_sets(coded_w: u16, coded_h: u16, out: Vec<u8>)
    requires
        call_ensures(annex_b_sps_pps, (coded_w, coded_h), out),
    ensures
        out@.len() >= 16,
        out@.subrange(0, 8) == seq![0u8, 0, 0, 1, 0x67, 66, 0xC0, 41],
        out@.subrange(out@.len() - 8, out@.len() as int) == seq![
            0u8,
            0,
            0,
            1,
            0x68,
            0xCE,
            0x38,
            0x80,
        ],
        out@.subrange(5, out@.len() - 8) == packed(
            closed_off(sps_bits(blocks(coded_w), blocks(coded_h))),
        ),
{
    lemma_sps_start(blocks(coded_w), blocks(coded_h));
    lemma_pps();
    lemma_sets_apart(
        packed(closed_off(sps_bits(blocks(coded_w), blocks(coded_h)))),
        packed(closed_off(pps_bits())),
    );
}

proof fn lemma_sets_apart(sps: Seq<u8>, pps: Seq<u8>)
    requires
        sps.len() >= 3,
        sps[0] == 66,
        sps[1] == 0xC0,
        sps[2] == 41,
        pps == seq![0xCEu8, 0x38, 0x80],
    ensures
        ({
            let out = start_code() + seq![0x67u8] + sps + start_code() + seq![0x68u8] + pps;
            &&& out.len() == 13 + sps.len()
            &&& out.subrange(0, 8) == seq![0u8, 0, 0, 1, 0x67, 66, 0xC0, 41]
            &&& out.subrange(out.len() - 8, out.len() as int) == seq![
                0u8,
                0,
                0,
                1,
                0x68,
                0xCE,
                0x38,
                0x80,
            ]
            &&& out.subrange(5, out.len() - 8) == sps
        }),
{
    let out = start_code() + seq![0x67u8] + sps + start_code() + seq![0x68u8] + pps;
    let end = seq![0u8, 0, 0, 1, 0x68, 0xCE, 0x38, 0x80];
    let start = seq![0u8, 0, 0, 1, 0x67];
    assert(out =~= start + sps + end);
    assert((start + sps + end).subrange(0, 8) =~= seq![0u8, 0, 0, 1, 0x67, 66, 0xC0, 41]);
    assert((start + sps + end).subrange(5int + sps.len(), 13int + sps.len()) =~= end);
    assert((start + sps + end).subrange(5, 5int + sps.len()) =~= sps);
}

/// Bits are closed off by a one and as many zeros as it takes to fill a byte, and every
/// byte is eight of them, the highest first.
pub proof fn law_closed_off(bits: Seq<bool>, i: int, k: int)
    ensures
        closed_off(bits).len() % 8 == 0,
        bits.len() < closed_off(bits).len() <= bits.len() + 8,
        0 <= i < bits.len() ==> closed_off(bits)[i] == bits[i],
        closed_off(bits)[bits.len() as int] == true,
        bits.len() < i < closed_off(bits).len() ==> closed_off(bits)[i] == false,
        packed(closed_off(bits)).len() == closed_off(bits).len() / 8,
        0 <= k < closed_off(bits).len() / 8 ==> packed(closed_off(bits))[k] == value(
            closed_off(bits).subrange(8 * k, 8 * k + 8),
        ) as u8,
{
}

proof fn lemma_byte(a: u8)
    ensures
        bits_of(a as nat, 8).len() == 8,
        value(bits_of(a as nat, 8)) == a,
{
    let v = a as nat;
    reveal_with_fuel(bits_of, 9);
    reveal_with_fuel(value, 9);
    let b8 = bits_of(v, 8);
    let b7 = bits_of(v / 2, 7);
    let b6 = bits_of(v / 2 / 2, 6);
    let b5 = bits_of(v / 2 / 2 / 2, 5);
    let b4 = bits_of(v / 2 / 2 / 2 / 2, 4);
    let b3 = bits_of(v / 2 / 2 / 2 / 2 / 2, 3);
    let b2 = bits_of(v / 2 / 2 / 2 / 2 / 2 / 2, 2);
    let b1 = bits_of(v / 2 / 2 / 2 / 2 / 2 / 2 / 2, 1);
    assert(b8.drop_last() =~= b7);
    assert(b7.drop_last() =~= b6);
    assert(b6.drop_last() =~= b5);
    assert(b5.drop_last() =~= b4);
    assert(b4.drop_last() =~= b3);
    assert(b3.drop_last() =~= b2);
    assert(b2.drop_last() =~= b1);
    assert(b1.drop_last() =~= seq![]);
}

proof fn lemma_sps_start(w: nat, h: nat)
    requires
        1 <= w,
        1 <= h,
    ensures
        packed(closed_off(sps_bits(w, h))).len() >= 3,
        packed(closed_off(sps_bits(w, h)))[0] == 66,
        packed(closed_off(sps_bits(w, h)))[1] == 0xC0,
        packed(closed_off(sps_bits(w, h)))[2] == 41,
{
    lemma_byte(66);
    lemma_byte(0xC0);
    lemma_byte(41);
    let bits = closed_off(sps_bits(w, h));
    assert(bits.subrange(0, 8) =~= bits_of(66, 8));
    assert(bits.subrange(8, 16) =~= bits_of(0xC0, 8));
    assert(bits.subrange(16, 24) =~= bits_of(41, 8));
}

proof fn lemma_ue_zero()
    ensures
        ue(0) == seq![true],
        ue(1) == seq![false, true, false],
        se(0) == seq![true],
{
    reveal_with_fuel(bits_of, 4);
    reveal_with_fuel(width, 3);
    assert(ue(0) =~= seq![true]);
    assert(ue(1) =~= seq![false, true, false]);
}

proof fn lemma_four(s: Seq<bool>, a: bool, b: bool, c: bool, d: bool)
    ensures
        value(s + seq![a, b, c, d]) == 16 * value(s) + (if a {
            8nat
        } else {
            0
        }) + (if b {
            4nat
        } else {
            0
        }) + (if c {
            2nat
        } else {
            0
        }) + (if d {
            1nat
        } else {
            0
        }),
{
    lemma_value_push(s, a);
    lemma_value_push(s.push(a), b);
    lemma_value_push(s.push(a).push(b), c);
    lemma_value_push(s.push(a).push(b).push(c), d);
    assert(s.push(a).push(b).push(c).push(d) =~= s + seq![a, b, c, d]);
}

proof fn lemma_value_push(s: Seq<bool>, last: bool)
    ensures
        value(s.push(last)) == 2 * value(s) + (if last {
            1nat
        } else {
            0
        }),
{
    assert(s.push(last).drop_last() =~= s);
}

proof fn lemma_pps()
    ensures
        packed(closed_off(pps_bits())) == seq![0xCEu8, 0x38, 0x80],
{
    lemma_ue_zero();
    reveal_with_fuel(bits_of, 3);
    assert(bits_of(0, 2) =~= seq![false, false]);
    let t = true;
    let f = false;
    let bits = closed_off(pps_bits());
    assert(pps_bits() =~= seq![t, t, f, f, t, t, t, f, f, f, t, t, t, f, f, f]);
    assert(bits =~= seq![
        t,
        t,
        f,
        f,
        t,
        t,
        t,
        f,
        f,
        f,
        t,
        t,
        t,
        f,
        f,
        f,
        t,
        f,
        f,
        f,
        f,
        f,
        f,
        f,
    ]);
    assert(bits.subrange(0, 8) =~= seq![t, t, f, f, t, t, t, f]);
    assert(bits.subrange(8, 16) =~= seq![f, f, t, t, t, f, f, f]);
    assert(bits.subrange(16, 24) =~= seq![t, f, f, f, f, f, f, f]);
    assert(seq![t, t, f, f] =~= Seq::<bool>::empty() + seq![t, t, f, f]);
    assert(seq![t, t, f, f, t, t, t, f] =~= seq![t, t, f, f] + seq![t, t, t, f]);
    lemma_four(Seq::empty(), t, t, f, f);
    lemma_four(seq![t, t, f, f], t, t, t, f);
    assert(seq![f, f, t, t] =~= Seq::<bool>::empty() + seq![f, f, t, t]);
    assert(seq![f, f, t, t, t, f, f, f] =~= seq![f, f, t, t] + seq![t, f, f, f]);
    lemma_four(Seq::empty(), f, f, t, t);
    lemma_four(seq![f, f, t, t], t, f, f, f);
    assert(seq![t, f, f, f] =~= Seq::<bool>::empty() + seq![t, f, f, f]);
    assert(seq![t, f, f, f, f, f, f, f] =~= seq![t, f, f, f] + seq![f, f, f, f]);
    lemma_four(Seq::empty(), t, f, f, f);
    lemma_four(seq![t, f, f, f], f, f, f, f);
    assert(packed(bits) =~= seq![0xCEu8, 0x38, 0x80]);
}

/// After the first three bytes the parameters of the stream are 1, 1, 1, 1, 010 and 0,
/// then the width and the height in blocks of sixteen, each less one, and 1, 1, 0 and 0.
/// Every byte is eight of these bits, the highest first.
pub proof fn law_stream_bits(coded_w: u16, coded_h: u16, i: int)
    requires
        coded_w % 16 == 0,
        coded_h % 16 == 0,
        coded_w >= 16,
        coded_h >= 16,
    ensures
        ({
            let bits = sps_bits(blocks(coded_w), blocks(coded_h));
            let w = ue((coded_w / 16 - 1) as nat);
            let h = ue((coded_h / 16 - 1) as nat);
            bits.skip(24) == seq![true, true, true, true, false, true, false, false] + w + h + seq![
                true,
                true,
                false,
                false,
            ]
        }),
{
    lemma_ue_zero();
    lemma_byte(66);
    lemma_byte(0xC0);
    lemma_byte(41);
    let bits = sps_bits(blocks(coded_w), blocks(coded_h));
    let w = ue((coded_w / 16 - 1) as nat);
    let h = ue((coded_h / 16 - 1) as nat);
    assert(bits.skip(24) =~= seq![true, true, true, true, false, true, false, false] + w + h + seq![
        true,
        true,
        false,
        false,
    ]);
}

} // verus!
