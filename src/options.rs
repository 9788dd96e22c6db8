//! The enumerated display options and the parsers for their textual values.
use crate::bytes::{bytes_is, lit};
use vstd::prelude::*;

verus! {

/// The key by which entries are ordered.
#[derive(Clone, Copy, Debug, PartialEq, Eq, Structural)]
pub enum SortOrder {
    Unsorted,
    Name,
    Size,
    Version,
    Extension,
    Directory,
    Width,
    AccessTime,
    Time,
}

/// Which rendering of timestamps is used.
#[derive(Clone, Copy, Debug, PartialEq, Eq, Structural)]
pub enum TimeStampType {
    FullIso,
    LongIso,
    Iso,
    Locale,
}

/// Which timestamp of an entry the long format shows.
#[derive(Clone, Copy, Debug, PartialEq, Eq, Structural)]
pub enum ShownTime {
    /// The last status change.
    Change,
    /// The last access (`-u`).
    Access,
}

/// How entry names are quoted.
#[derive(Clone, Copy, Debug, PartialEq, Eq, Structural)]
pub enum QuotingStyle {
    C,
    Literal,
    Locale,
    Shell,
    ShellAlways,
    ShellEscape,
    ShellEscapeAlways,
}

/// Which marker is appended to entry names.
#[derive(Clone, Copy, Debug, PartialEq, Eq, Structural)]
pub enum IndicatorStyle {
    Plain,
    Slash,
    FileType,
    Classify,
}

/// The overall shape of the listing.
#[derive(Clone, Copy, Debug, PartialEq, Eq, Structural)]
pub enum Formatting {
    Long,
    Horizontal,
    Across,
    Commas,
    SingleCol,
}

/// A tri-state switch: never, when the output is a terminal, or always.
#[derive(Clone, Copy, Debug, PartialEq, Eq, Structural)]
pub enum When {
    Never,
    Auto,
    Always,
}

/// Which symbolic links are followed.
#[derive(Clone, Copy, Debug, PartialEq, Eq, Structural)]
pub enum Dereference {
    /// Follow symlinks named on the command line.
    Commandline,
    /// Follow every symlink in the directory that points to a directory.
    FollowAllDirs,
    /// Follow none.
    Never,
}

pub open spec fn when_of(b: Seq<u8>) -> Option<When> {
    if b == lit("always") || b == lit("yes") || b == lit("force") {
        Some(When::Always)
    } else if b == lit("never") || b == lit("no") || b == lit("none") {
        Some(When::Never)
    } else if b == lit("auto") || b == lit("tty") || b == lit("if-tty") {
        Some(When::Auto)
    } else {
        None
    }
}

impl When {
    /// Reads `always`/`yes`/`force`, `never`/`no`/`none` or `auto`/`tty`/`if-tty`.
    pub fn from_bytes(val: &[u8]) -> (r: Option<When>)
        ensures
            r == when_of(val@),
    {
        if bytes_is(val, "always") || bytes_is(val, "yes") || bytes_is(val, "force") {
            Some(When::Always)
        } else if bytes_is(val, "never") || bytes_is(val, "no") || bytes_is(val, "none") {
            Some(When::Never)
        } else if bytes_is(val, "auto") || bytes_is(val, "tty") || bytes_is(val, "if-tty") {
            Some(When::Auto)
        } else {
            None
        }
    }
}

pub open spec fn formatting_of(b: Seq<u8>) -> Option<Formatting> {
    if b == lit("verbose") || b == lit("long") {
        Some(Formatting::Long)
    } else if b == lit("horizontal") {
        Some(Formatting::Horizontal)
    } else if b == lit("across") {
        Some(Formatting::Across)
    } else if b == lit("commas") {
        Some(Formatting::Commas)
    } else if b == lit("single-column") {
        Some(Formatting::SingleCol)
    } else {
        None
    }
}

impl Formatting {
    /// Reads `verbose`/`long`, `horizontal`, `across`, `commas` or `single-column`.
    pub fn from_bytes(val: &[u8]) -> (r: Option<Formatting>)
        ensures
            r == formatting_of(val@),
    {
        if bytes_is(val, "verbose") || bytes_is(val, "long") {
            Some(Formatting::Long)
        } else if bytes_is(val, "horizontal") {
            Some(Formatting::Horizontal)
        } else if bytes_is(val, "across") {
            Some(Formatting::Across)
        } else if bytes_is(val, "commas") {
            Some(Formatting::Commas)
        } else if bytes_is(val, "single-column") {
            Some(Formatting::SingleCol)
        } else {
            None
        }
    }
}

pub open spec fn indicator_of(b: Seq<u8>) -> Option<IndicatorStyle> {
    if b == lit("none") {
        Some(IndicatorStyle::Plain)
    } else if b == lit("slash") {
        Some(IndicatorStyle::Slash)
    } else if b == lit("file-type") {
        Some(IndicatorStyle::FileType)
    } else if b == lit("classify") {
        Some(IndicatorStyle::Classify)
    } else {
        None
    }
}

impl IndicatorStyle {
    /// Reads `none`, `slash`, `file-type` or `classify`.
    pub fn from_bytes(val: &[u8]) -> (r: Option<IndicatorStyle>)
        ensures
            r == indicator_of(val@),
    {
        if bytes_is(val, "none") {
            Some(IndicatorStyle::Plain)
        } else if bytes_is(val, "slash") {
            Some(IndicatorStyle::Slash)
        } else if bytes_is(val, "file-type") {
            Some(IndicatorStyle::FileType)
        } else if bytes_is(val, "classify") {
            Some(IndicatorStyle::Classify)
        } else {
            None
        }
    }
}

pub open spec fn quoting_of(b: Seq<u8>) -> Option<QuotingStyle> {
    if b == lit("literal") {
        Some(QuotingStyle::Literal)
    } else if b == lit("locale") {
        Some(QuotingStyle::Locale)
    } else if b == lit("shell") {
        Some(QuotingStyle::Shell)
    } else if b == lit("shell-always") {
        Some(QuotingStyle::ShellAlways)
    } else if b == lit("shell-escape") {
        Some(QuotingStyle::ShellEscape)
    } else if b == lit("shell-escape-always") {
        Some(QuotingStyle::ShellEscapeAlways)
    } else if b == lit("c") {
        Some(QuotingStyle::C)
    } else {
        None
    }
}

impl QuotingStyle {
    /// Reads one of the quoting style names.
    pub fn from_bytes(val: &[u8]) -> (r: Option<QuotingStyle>)
        ensures
            r == quoting_of(val@),
    {
        if bytes_is(val, "literal") {
            Some(QuotingStyle::Literal)
        } else if bytes_is(val, "locale") {
            Some(QuotingStyle::Locale)
        } else if bytes_is(val, "shell") {
            Some(QuotingStyle::Shell)
        } else if bytes_is(val, "shell-always") {
            Some(QuotingStyle::ShellAlways)
        } else if bytes_is(val, "shell-escape") {
            Some(QuotingStyle::ShellEscape)
        } else if bytes_is(val, "shell-escape-always") {
            Some(QuotingStyle::ShellEscapeAlways)
        } else if bytes_is(val, "c") {
            Some(QuotingStyle::C)
        } else {
            None
        }
    }
}

pub open spec fn sort_order_of(b: Seq<u8>) -> Option<SortOrder> {
    if b == lit("none") {
        Some(SortOrder::Unsorted)
    } else if b == lit("name") {
        Some(SortOrder::Name)
    } else if b == lit("size") {
        Some(SortOrder::Size)
    } else if b == lit("time") {
        Some(SortOrder::Time)
    } else if b == lit("version") {
        Some(SortOrder::Version)
    } else if b == lit("extension") {
        Some(SortOrder::Extension)
    } else if b == lit("width") {
        Some(SortOrder::Width)
    } else {
        None
    }
}

impl SortOrder {
    /// Reads one of the sort key names accepted by `--sort`.
    pub fn from_bytes(val: &[u8]) -> (r: Option<SortOrder>)
        ensures
            r == sort_order_of(val@),
    {
        if bytes_is(val, "none") {
            Some(SortOrder::Unsorted)
        } else if bytes_is(val, "name") {
            Some(SortOrder::Name)
        } else if bytes_is(val, "size") {
            Some(SortOrder::Size)
        } else if bytes_is(val, "time") {
            Some(SortOrder::Time)
        } else if bytes_is(val, "version") {
            Some(SortOrder::Version)
        } else if bytes_is(val, "extension") {
            Some(SortOrder::Extension)
        } else if bytes_is(val, "width") {
            Some(SortOrder::Width)
        } else {
            None
        }
    }
}

/// Why a `--block-size` value was refused.
#[derive(Clone, Copy, Debug, PartialEq, Eq, Structural)]
pub enum SizeParseError {
    /// The size does not fit in 64 bits, or its unit is beyond exa.
    TooLarge,
    /// The unit after the number is not known.
    InvalidSuffix,
    /// There is no number, or it is zero.
    InvalidArgument,
}

pub open spec fn is_digit(b: u8) -> bool {
    48 <= b <= 57
}

/// How many bytes at the start of `s` are ASCII digits.
pub open spec fn digit_run(s: Seq<u8>) -> nat
    decreases s.len(),
{
    if s.len() > 0 && is_digit(s[0]) {
        1 + digit_run(s.drop_first())
    } else {
        0
    }
}

/// The number that a run of decimal digits writes.
pub open spec fn decimal_value(s: Seq<u8>) -> nat
    decreases s.len(),
{
    if s.len() == 0 {
        0
    } else {
        decimal_value(s.drop_last()) * 10 + (s.last() - 48) as nat
    }
}

pub open spec fn pow(base: nat, exp: nat) -> nat
    decreases exp,
{
    if exp == 0 {
        1
    } else {
        base * pow(base, (exp - 1) as nat)
    }
}

/// The unit that a block-size suffix names, as a base and an exponent.
pub open spec fn unit_of(s: Seq<u8>) -> Option<(nat, nat)> {
    if s.len() == 0 {
        Some((1, 0))
    } else if s == lit("K") || s == lit("KiB") {
        Some((1024, 1))
    } else if s == lit("M") || s == lit("MiB") {
        Some((1024, 2))
    } else if s == lit("G") || s == lit("GiB") {
        Some((1024, 3))
    } else if s == lit("T") || s == lit("TiB") {
        Some((1024, 4))
    } else if s == lit("P") || s == lit("PiB") {
        Some((1024, 5))
    } else if s == lit("E") || s == lit("EiB") {
        Some((1024, 6))
    } else if s == lit("KB") {
        Some((1000, 1))
    } else if s == lit("MB") {
        Some((1000, 2))
    } else if s == lit("GB") {
        Some((1000, 3))
    } else if s == lit("TB") {
        Some((1000, 4))
    } else if s == lit("PB") {
        Some((1000, 5))
    } else if s == lit("EB") {
        Some((1000, 6))
    } else {
        None
    }
}

/// Suffixes of units that no 64-bit size can hold.
pub open spec fn oversized_unit(s: Seq<u8>) -> bool {
    s == lit("Z") || s == lit("ZiB") || s == lit("ZB") || s == lit("Y") || s == lit("YiB")
        || s == lit("YB") || s == lit("R") || s == lit("RiB") || s == lit("RB")
}

/// The multiplier that a `--block-size` value `SIZE[UNIT]` stands for.
pub open spec fn block_size_of(arg: Seq<u8>) -> Result<u64, SizeParseError> {
    let n = digit_run(arg);
    let value = decimal_value(arg.subrange(0, n as int));
    let suffix = arg.subrange(n as int, arg.len() as int);
    if n == 0 || value == 0 {
        Err(SizeParseError::InvalidArgument)
    } else if oversized_unit(suffix) {
        Err(SizeParseError::TooLarge)
    } else if let Some((base, exp)) = unit_of(suffix) {
        if value * pow(base, exp) > u64::MAX {
            Err(SizeParseError::TooLarge)
        } else {
            Ok((value * pow(base, exp)) as u64)
        }
    } else {
        Err(SizeParseError::InvalidSuffix)
    }
}

pub proof fn lemma_digit_run_split(s: Seq<u8>, i: int)
    requires
        0 <= i <= s.len(),
        forall|k: int| 0 <= k < i ==> is_digit(#[trigger] s[k]),
    ensures
        digit_run(s) == i + digit_run(s.subrange(i, s.len() as int)),
    decreases i,
{
    if i > 0 {
        lemma_digit_run_split(s.drop_first(), i - 1);
        assert(s.drop_first().subrange(i - 1, s.drop_first().len() as int)
            == s.subrange(i, s.len() as int));
    } else {
        assert(s.subrange(0, s.len() as int) == s);
    }
}

pub proof fn lemma_pow_positive(base: nat, exp: nat)
    requires
        base > 0,
    ensures
        pow(base, exp) > 0,
    decreases exp,
{
    if exp > 0 {
        lemma_pow_positive(base, (exp - 1) as nat);
        vstd::arithmetic::mul::lemma_mul_strictly_positive(base as int, pow(base, (exp - 1) as nat) as int);
    }
}

/// Computes `base^exp`, which the callers keep below 2^64.
fn unit_value(base: u64, exp: u64) -> (r: u64)
    requires
        base == 1000 || base == 1024,
        exp <= 6,
    ensures
        r == pow(base as nat, exp as nat),
{
    let mut r: u64 = 1;
    let mut i: u64 = 0;
    while i < exp
        invariant
            base == 1000 || base == 1024,
            i <= exp <= 6,
            r == pow(base as nat, i as nat),
            r <= pow(1024, i as nat),
        decreases exp - i,
    {
        assert(pow(1024, (i + 1) as nat) <= pow(1024, 6)) by {
            reveal_with_fuel(pow, 7);
            assert(i + 1 <= 6);
        }
        assert(pow(1024, 6) < 0x1_0000_0000_0000_0000) by {
            reveal_with_fuel(pow, 7);
        }
        assert(r * base <= pow(1024, (i + 1) as nat)) by (nonlinear_arith)
            requires
                r <= pow(1024, i as nat),
                base <= 1024,
                pow(1024, (i + 1) as nat) == 1024 * pow(1024, i as nat),
        ;
        r = r * base;
        i = i + 1;
    }
    r
}

/// Reads a `--block-size` value: decimal digits followed by an optional unit
/// (`K`/`KiB` .. `E`/`EiB` in powers of 1024, `KB` .. `EB` in powers of 1000).
pub fn size_arg_to_multiplier(arg: &[u8]) -> (r: Result<u64, SizeParseError>)
    ensures
        r == block_size_of(arg@),
        r is Ok ==> r->Ok_0 > 0,
{
    let mut n: usize = 0;
    let mut value: u64 = 0;
    let mut overflow = false;
    while n < arg.len() && arg[n] >= 48 && arg[n] <= 57
        invariant
            n <= arg@.len(),
            forall|k: int| 0 <= k < n ==> is_digit(#[trigger] arg@[k]),
            !overflow ==> value == decimal_value(arg@.subrange(0, n as int)),
            overflow ==> decimal_value(arg@.subrange(0, n as int)) > u64::MAX,
        decreases arg@.len() - n,
    {
        let d = (arg[n] - 48) as u64;
        let ghost prev = decimal_value(arg@.subrange(0, n as int));
        assert(arg@.subrange(0, n + 1).drop_last() == arg@.subrange(0, n as int));
        assert(decimal_value(arg@.subrange(0, n + 1)) == prev * 10 + d);
        if !overflow {
            match value.checked_mul(10) {
                Some(v) => match v.checked_add(d) {
                    Some(w) => {
                        value = w;
                    },
                    None => {
                        overflow = true;
                    },
                },
                None => {
                    assert(prev * 10 + d > u64::MAX);
                    overflow = true;
                },
            }
        } else {
            assert(prev * 10 + d > u64::MAX) by (nonlinear_arith)
                requires
                    prev > u64::MAX,
            ;
        }
        n = n + 1;
    }
    proof {
        lemma_digit_run_split(arg@, n as int);
        let rest = arg@.subrange(n as int, arg@.len() as int);
        assert(digit_run(rest) == 0);
    }
    if n == 0 {
        return Err(SizeParseError::InvalidArgument);
    }
    if !overflow && value == 0 {
        return Err(SizeParseError::InvalidArgument);
    }
    let suffix = slice_tail(arg, n);
    if bytes_is(suffix, "Z") || bytes_is(suffix, "ZiB") || bytes_is(suffix, "ZB") || bytes_is(
        suffix,
        "Y",
    ) || bytes_is(suffix, "YiB") || bytes_is(suffix, "YB") || bytes_is(suffix, "R") || bytes_is(
        suffix,
        "RiB",
    ) || bytes_is(suffix, "RB") {
        return Err(SizeParseError::TooLarge);
    }
    let (base, exp): (u64, u64) = if suffix.len() == 0 {
        (1000, 0)
    } else if bytes_is(suffix, "K") || bytes_is(suffix, "KiB") {
        (1024, 1)
    } else if bytes_is(suffix, "M") || bytes_is(suffix, "MiB") {
        (1024, 2)
    } else if bytes_is(suffix, "G") || bytes_is(suffix, "GiB") {
        (1024, 3)
    } else if bytes_is(suffix, "T") || bytes_is(suffix, "TiB") {
        (1024, 4)
    } else if bytes_is(suffix, "P") || bytes_is(suffix, "PiB") {
        (1024, 5)
    } else if bytes_is(suffix, "E") || bytes_is(suffix, "EiB") {
        (1024, 6)
    } else if bytes_is(suffix, "KB") {
        (1000, 1)
    } else if bytes_is(suffix, "MB") {
        (1000, 2)
    } else if bytes_is(suffix, "GB") {
        (1000, 3)
    } else if bytes_is(suffix, "TB") {
        (1000, 4)
    } else if bytes_is(suffix, "PB") {
        (1000, 5)
    } else if bytes_is(suffix, "EB") {
        (1000, 6)
    } else {
        return Err(SizeParseError::InvalidSuffix);
    };
    let unit = unit_value(base, exp);
    proof {
        lemma_pow_positive(base as nat, exp as nat);
        assert(pow(1000, 0) == 1 && pow(1, 0) == 1);
    }
    if overflow {
        proof {
            let v = decimal_value(arg@.subrange(0, n as int));
            assert(v * unit >= v) by (nonlinear_arith)
                requires
                    unit >= 1,
            ;
        }
        return Err(SizeParseError::TooLarge);
    }
    match value.checked_mul(unit) {
        Some(m) => {
            proof {
                assert(m > 0) by (nonlinear_arith)
                    requires
                        m == value * unit,
                        value > 0,
                        unit > 0,
                ;
            }
            Ok(m)
        },
        None => Err(SizeParseError::TooLarge),
    }
}

/// The bytes of `s` from index `start` on.
fn slice_tail(s: &[u8], start: usize) -> (r: &[u8])
    requires
        start <= s@.len(),
    ensures
        r@ == s@.subrange(start as int, s@.len() as int),
{
    vstd::slice::slice_subrange(s, start, s.len())
}

} // verus!
