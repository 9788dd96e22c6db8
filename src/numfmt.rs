//! Decimal rendering of integers and the human-readable size formatter.
use crate::bytes::{lit, push_repeat, push_str, repeat};
use crate::options::pow;
use vstd::prelude::*;

verus! {

/// The ASCII decimal digits of `n`, without leading zeros.
pub open spec fn decimal(n: nat) -> Seq<u8>
    decreases n,
{
    if n < 10 {
        seq![(48 + n) as u8]
    } else {
        decimal(n / 10).push((48 + n % 10) as u8)
    }
}

/// How many decimal digits `n` has.
pub open spec fn num_digits(n: nat) -> nat
    decreases n,
{
    if n < 10 {
        1
    } else {
        1 + num_digits(n / 10)
    }
}

pub proof fn lemma_decimal_len(n: nat)
    ensures
        decimal(n).len() == num_digits(n),
        num_digits(n) >= 1,
    decreases n,
{
    if n >= 10 {
        lemma_decimal_len(n / 10);
    }
}

/// `s` right-justified in a field of `w` bytes (never truncated).
pub open spec fn pad_left(s: Seq<u8>, w: nat) -> Seq<u8> {
    if s.len() < w {
        repeat(32, (w - s.len()) as nat) + s
    } else {
        s
    }
}

/// `s` left-justified in a field of `w` bytes (never truncated).
pub open spec fn pad_right(s: Seq<u8>, w: nat) -> Seq<u8> {
    if s.len() < w {
        s + repeat(32, (w - s.len()) as nat)
    } else {
        s
    }
}

/// The number of decimal digits of `n`.
pub fn number_length_u64(n: u64) -> (r: u32)
    ensures
        r == num_digits(n as nat),
{
    let mut m: u64 = n;
    let mut count: u32 = 1;
    proof {
        lemma_digits_u64(n as nat);
        lemma_decimal_len(n as nat);
    }
    while m >= 10
        invariant
            count + num_digits(m as nat) == num_digits(n as nat) + 1,
            num_digits(m as nat) >= 1,
            m <= n,
            num_digits(n as nat) <= 20,
        decreases m,
    {
        proof {
            lemma_decimal_len((m / 10) as nat);
        }
        m = m / 10;
        count = count + 1;
    }
    count
}

proof fn lemma_digits_u64(n: nat)
    requires
        n <= u64::MAX,
    ensures
        num_digits(n) <= 20,
{
    reveal_with_fuel(num_digits, 21);
}

/// Appends the decimal digits of `n`.
pub fn push_decimal(out: &mut Vec<u8>, n: u128)
    ensures
        final(out)@ == old(out)@ + decimal(n as nat),
    decreases n,
{
    if n >= 10 {
        push_decimal(out, n / 10);
    }
    out.push((48 + n % 10) as u8);
    proof {
        if n >= 10 {
            assert(old(out)@ + decimal(n as nat) == (old(out)@ + decimal((n / 10) as nat)).push(
                (48 + n % 10) as u8,
            ));
        }
    }
}

/// Appends the decimal digits of `n` right-justified in `width` bytes.
pub fn push_padded_decimal(out: &mut Vec<u8>, n: u128, width: usize)
    ensures
        final(out)@ == old(out)@ + pad_left(decimal(n as nat), width as nat),
{
    proof {
        lemma_decimal_len(n as nat);
    }
    let mut digits: Vec<u8> = Vec::new();
    push_decimal(&mut digits, n);
    assert(digits@ == decimal(n as nat));
    push_padded(out, &digits, width);
}

/// Appends `s` right-justified in `width` bytes.
pub fn push_padded(out: &mut Vec<u8>, s: &Vec<u8>, width: usize)
    ensures
        final(out)@ == old(out)@ + pad_left(s@, width as nat),
{
    if s.len() < width {
        push_repeat(out, 32, width - s.len());
    }
    crate::bytes::push_all(out, s.as_slice());
    assert(old(out)@ + pad_left(s@, width as nat) == final(out)@) by {
        if s@.len() < width {
            assert(old(out)@ + (repeat(32, (width - s@.len()) as nat) + s@) == (old(out)@ + repeat(
                32,
                (width - s@.len()) as nat,
            )) + s@);
        }
    }
}

/// Appends `s` left-justified in `width` bytes.
pub fn push_padded_right(out: &mut Vec<u8>, s: &Vec<u8>, width: usize)
    ensures
        final(out)@ == old(out)@ + pad_right(s@, width as nat),
{
    crate::bytes::push_all(out, s.as_slice());
    if s.len() < width {
        push_repeat(out, 32, width - s.len());
    }
}

/// The unit letter used after `scale` divisions by the base.
pub open spec fn unit_name(scale: nat) -> &'static str {
    if scale == 0 {
        ""
    } else if scale == 1 {
        "K"
    } else if scale == 2 {
        "M"
    } else if scale == 3 {
        "G"
    } else if scale == 4 {
        "T"
    } else if scale == 5 {
        "P"
    } else if scale == 6 {
        "E"
    } else {
        "Z"
    }
}

/// The number of divisions by `base` the size formatter makes: it divides
/// while the value is at least `base` and fewer than 7 divisions were made.
pub open spec fn scale_from(num: nat, base: nat, s: nat) -> nat
    decreases 7 - s,
{
    if s < 7 && num >= pow(base, s + 1) {
        scale_from(num, base, s + 1)
    } else {
        s
    }
}

/// `n / d` to the nearest integer, ties to even.
pub open spec fn round_div(n: nat, d: nat) -> nat {
    let q = n / d;
    let r = n % d;
    if 2 * r > d || (2 * r == d && q % 2 == 1) {
        q + 1
    } else {
        q
    }
}

/// The human-readable form of `num` bytes: the scaled value with one
/// fractional digit (rounded to nearest, ties to even), then the unit letter.
pub open spec fn humanized(num: nat, si: bool) -> Seq<u8> {
    let base: nat = if si {
        1000
    } else {
        1024
    };
    let scale = scale_from(num, base, 0);
    let tenths = round_div(num * 10, pow(base, scale));
    decimal(tenths / 10) + seq![46u8] + decimal(tenths % 10) + lit(unit_name(scale))
}

proof fn lemma_pow_bound(base: nat, s: nat)
    requires
        base <= 1024,
        s <= 8,
    ensures
        pow(base, s) <= pow(1024, s),
        pow(1024, s) <= pow(1024, 8),
        pow(1024, 8) == 0x1_0000_0000_0000_0000_0000,
    decreases s,
{
    reveal_with_fuel(pow, 9);
    if s > 0 {
        lemma_pow_bound(base, (s - 1) as nat);
        assert(base * pow(base, (s - 1) as nat) <= 1024 * pow(1024, (s - 1) as nat))
            by (nonlinear_arith)
            requires
                base <= 1024,
                pow(base, (s - 1) as nat) <= pow(1024, (s - 1) as nat),
        ;
    }
}

/// Formats `num` bytes in human-readable form, in powers of 1000 when `si`
/// holds and of 1024 otherwise (`1024` gives `1.0K`, `0` gives `0.0`).
pub fn humanize_number(num: u64, si: bool) -> (r: Vec<u8>)
    ensures
        r@ == humanized(num as nat, si),
{
    let base: u128 = if si {
        1000
    } else {
        1024
    };
    let n: u128 = num as u128;
    let mut d: u128 = 1;
    let mut s: u64 = 0;
    proof {
        lemma_pow_bound(base as nat, 1);
    }
    while s < 7 && n >= d * base
        invariant
            base == 1000 || base == 1024,
            s <= 7,
            d == pow(base as nat, s as nat),
            d <= pow(1024, s as nat),
            pow(1024, 8) == 0x1_0000_0000_0000_0000_0000,
            pow(1024, (s + 1) as nat) <= pow(1024, 8),
            scale_from(n as nat, base as nat, 0) == scale_from(n as nat, base as nat, s as nat),
        decreases 7 - s,
    {
        assert(d * base <= pow(1024, (s + 1) as nat)) by (nonlinear_arith)
            requires
                d <= pow(1024, s as nat),
                base <= 1024,
                pow(1024, (s + 1) as nat) == 1024 * pow(1024, s as nat),
        ;
        d = d * base;
        s = s + 1;
        proof {
            lemma_pow_bound(base as nat, (s + 1) as nat);
        }
    }
    proof {
        crate::options::lemma_pow_positive(base as nat, s as nat);
    }
    let scaled = n * 10;
    let q = scaled / d;
    let rem = scaled % d;
    let tenths: u128 = if 2 * rem > d || (2 * rem == d && q % 2 == 1) {
        q + 1
    } else {
        q
    };
    assert(tenths == round_div(n as nat * 10, pow(base as nat, s as nat)));
    let mut out: Vec<u8> = Vec::new();
    push_decimal(&mut out, tenths / 10);
    out.push(46);
    push_decimal(&mut out, tenths % 10);
    push_str(&mut out, unit_str(s));
    out
}

fn unit_str(s: u64) -> (r: &'static str)
    ensures
        r == unit_name(s as nat),
{
    if s == 0 {
        ""
    } else if s == 1 {
        "K"
    } else if s == 2 {
        "M"
    } else if s == 3 {
        "G"
    } else if s == 4 {
        "T"
    } else if s == 5 {
        "P"
    } else if s == 6 {
        "E"
    } else {
        "Z"
    }
}

} // verus!
