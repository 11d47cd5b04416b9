//! Numbers as text, and text from parts.

use vstd::prelude::*;
use vstd::string::*;

verus! {

/// One digit, in base sixteen or less.
pub open spec fn digit(d: int) -> char {
    if d < 10 {
        (0x30 + d) as char
    } else {
        (0x57 + d) as char
    }
}

/// A number in base ten.
pub open spec fn decimal(n: nat) -> Seq<char>
    decreases n,
{
    if n < 10 {
        seq![digit(n as int)]
    } else {
        decimal(n / 10).push(digit((n % 10) as int))
    }
}

/// A number in base ten, with its sign where it is negative.
pub open spec fn signed_decimal(n: int) -> Seq<char> {
    if n < 0 {
        seq!['-'] + decimal((-n) as nat)
    } else {
        decimal(n as nat)
    }
}

/// The last `width` digits of a number in base sixteen.
pub open spec fn hex_digits(n: nat, width: nat) -> Seq<char>
    decreases width,
{
    if width == 0 {
        seq![]
    } else {
        hex_digits(n / 16, (width - 1) as nat).push(digit((n % 16) as int))
    }
}

/// A number in base sixteen, with eight digits and a prefix.
pub open spec fn hex32(n: u32) -> Seq<char> {
    seq!['0', 'x'] + hex_digits(n as nat, 8)
}

fn push_digit(out: &mut String, d: u8)
    requires
        d < 16,
    ensures
        final(out)@ == old(out)@.push(digit(d as int)),
{
    if d < 10 {
        out.push((0x30 + d) as char);
    } else {
        out.push((0x57 + d) as char);
    }
}

/// Appends a number in base ten.
pub fn push_decimal(out: &mut String, n: u64)
    ensures
        final(out)@ == old(out)@ + decimal(n as nat),
    decreases n,
{
    let ghost before = out@;
    if n >= 10 {
        push_decimal(out, n / 10);
    }
    push_digit(out, (n % 10) as u8);
    assert(out@ =~= before + decimal(n as nat));
}

/// Appends a number in base ten, with its sign where it is negative.
pub fn push_signed(out: &mut String, n: i64)
    ensures
        final(out)@ == old(out)@ + signed_decimal(n as int),
{
    let ghost before = out@;
    if n < 0 {
        out.push('-');
        push_decimal(out, (-(n + 1)) as u64 + 1);
        assert(out@ =~= before + signed_decimal(n as int));
    } else {
        push_decimal(out, n as u64);
    }
}

fn push_hex_digits(out: &mut String, n: u32, width: usize)
    ensures
        final(out)@ == old(out)@ + hex_digits(n as nat, width as nat),
    decreases width,
{
    let ghost before = out@;
    if width > 0 {
        push_hex_digits(out, n / 16, width - 1);
        push_digit(out, (n % 16) as u8);
    }
    assert(out@ =~= before + hex_digits(n as nat, width as nat));
}

/// Appends a number in base sixteen, with eight digits and a prefix.
pub fn push_hex32(out: &mut String, n: u32)
    ensures
        final(out)@ == old(out)@ + hex32(n),
{
    let ghost before = out@;
    out.push('0');
    out.push('x');
    push_hex_digits(out, n, 8);
    assert(out@ =~= before + hex32(n));
}

/// A number in base ten between two pieces of text.
pub fn around(before: &str, n: u64, after: &str) -> (s: String)
    ensures
        s@ == before@ + decimal(n as nat) + after@,
{
    let mut s: String = before.to_owned();
    push_decimal(&mut s, n);
    s.append(after);
    s
}

/// What text in double quotes looks like with what cannot be printed escaped,
/// as `format!` writes it with `{:?}`.
pub uninterp spec fn quoted(s: Seq<char>) -> Seq<char>;

/// `format!` of a string slice with `{:?}`: a function of the text alone.
#[verifier::external_body]
pub(crate) fn quote(s: &str) -> (r: String)
    ensures
        r@ == quoted(s@),
{
    format!("{:?}", s)
}

/// The last character of a number in base ten is its last digit, and those before it are
/// the number without that digit; a number of one digit has no more.
pub proof fn law_decimal(n: nat)
    ensures
        n < 10 ==> decimal(n) == seq![(48 + n) as char],
        n >= 10 ==> decimal(n) == decimal(n / 10).push((48 + n % 10) as char),
        decimal(n).len() >= 1,
        signed_decimal(n as int) == decimal(n),
        n > 0 ==> signed_decimal(-n) == seq!['-'] + decimal(n),
{
}

/// A number in base sixteen is written `0x` and eight digits, the highest first, those
/// above nine as letters.
pub proof fn law_hex(n: u32, i: int)
    requires
        0 <= i < 8,
    ensures
        hex32(n).len() == 10,
        hex32(n)[0] == '0',
        hex32(n)[1] == 'x',
        ({
            let d = n as int / vstd::arithmetic::power::pow(16, (7 - i) as nat) % 16;
            &&& d < 10 ==> hex32(n)[2 + i] == (48 + d) as char
            &&& d >= 10 ==> hex32(n)[2 + i] == (97 + (d - 10)) as char
        }),
{
    lemma_hex_digit(n as nat, 8, i);
}

proof fn lemma_hex_digit(n: nat, width: nat, i: int)
    requires
        0 <= i < width,
    ensures
        hex_digits(n, width).len() == width,
        hex_digits(n, width)[i] == digit(
            n as int / vstd::arithmetic::power::pow(16, (width - 1 - i) as nat) % 16,
        ),
    decreases width,
{
    let before = hex_digits(n / 16, (width - 1) as nat);
    if width > 1 {
        lemma_hex_digit(n / 16, (width - 1) as nat, if i < width - 1 {
            i
        } else {
            0
        });
    }
    if i == width - 1 {
        vstd::arithmetic::power::lemma_pow0(16);
    } else {
        let p = vstd::arithmetic::power::pow(16, (width - 2 - i) as nat);
        vstd::arithmetic::power::lemma_pow_positive(16, (width - 2 - i) as nat);
        assert(vstd::arithmetic::power::pow(16, (width - 1 - i) as nat) == 16 * p) by {
            reveal(vstd::arithmetic::power::pow);
        }
        vstd::arithmetic::div_mod::lemma_div_denominator(n as int, 16, p);
    }
}

} // verus!
