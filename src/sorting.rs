//! The comparators over entries and the stable sort that applies them.
use crate::entry::{LsDisplay, Stat, DIRECTORY, TYPE_MASK};
use crate::options::{decimal_value, digit_run, is_digit, pow, SortOrder};
use crate::settings::{LsConfig, LsFlags, DIRECTORIES_FIRST, GROUP_DIRS_FIRST, REVERSE_SORT};
use core::cmp::Ordering;
use vstd::prelude::*;

verus! {

pub open spec fn int_cmp(a: int, b: int) -> Ordering {
    if a < b {
        Ordering::Less
    } else if a > b {
        Ordering::Greater
    } else {
        Ordering::Equal
    }
}

pub open spec fn flip(o: Ordering) -> Ordering {
    match o {
        Ordering::Less => Ordering::Greater,
        Ordering::Equal => Ordering::Equal,
        Ordering::Greater => Ordering::Less,
    }
}

/// Byte-wise lexicographic order; a proper prefix comes first.
pub open spec fn lex_cmp(a: Seq<u8>, b: Seq<u8>) -> Ordering
    decreases a.len(),
{
    if a.len() == 0 {
        if b.len() == 0 {
            Ordering::Equal
        } else {
            Ordering::Less
        }
    } else if b.len() == 0 {
        Ordering::Greater
    } else if a[0] != b[0] {
        int_cmp(a[0] as int, b[0] as int)
    } else {
        lex_cmp(a.drop_first(), b.drop_first())
    }
}

/// How many `0` bytes `s` starts with.
pub open spec fn zero_run(s: Seq<u8>) -> nat
    decreases s.len(),
{
    if s.len() > 0 && s[0] == 48 {
        1 + zero_run(s.drop_first())
    } else {
        0
    }
}

/// Numeric order of two runs of decimal digits: with leading zeros removed,
/// the run with fewer digits is the smaller, and runs of equal length
/// compare digit by digit.
pub open spec fn digits_cmp(x: Seq<u8>, y: Seq<u8>) -> Ordering {
    let sx = x.subrange(zero_run(x) as int, x.len() as int);
    let sy = y.subrange(zero_run(y) as int, y.len() as int);
    if sx.len() != sy.len() {
        int_cmp(sx.len() as int, sy.len() as int)
    } else {
        lex_cmp(sx, sy)
    }
}

/// Natural ("version") order: bytes compare as bytes, except that where both
/// names have a run of digits the runs compare by numeric value, and runs of
/// equal value by their length (the shorter first).
pub open spec fn version_cmp(a: Seq<u8>, b: Seq<u8>) -> Ordering
    decreases a.len() + b.len()
    via version_cmp_decreases

{
    if a.len() == 0 || b.len() == 0 {
        int_cmp(a.len() as int, b.len() as int)
    } else if is_digit(a[0]) && is_digit(b[0]) {
        let ra = digit_run(a);
        let rb = digit_run(b);
        let c = digits_cmp(a.subrange(0, ra as int), b.subrange(0, rb as int));
        if c != Ordering::Equal {
            c
        } else if ra != rb {
            int_cmp(ra as int, rb as int)
        } else {
            version_cmp(
                a.subrange(ra as int, a.len() as int),
                b.subrange(rb as int, b.len() as int),
            )
        }
    } else if a[0] != b[0] {
        int_cmp(a[0] as int, b[0] as int)
    } else {
        version_cmp(a.drop_first(), b.drop_first())
    }
}

pub proof fn lemma_digit_run_bounds(s: Seq<u8>)
    ensures
        digit_run(s) <= s.len(),
        s.len() > 0 && is_digit(s[0]) ==> digit_run(s) >= 1,
    decreases s.len(),
{
    if s.len() > 0 {
        lemma_digit_run_bounds(s.drop_first());
    }
}

#[via_fn]
proof fn version_cmp_decreases(a: Seq<u8>, b: Seq<u8>) {
    lemma_digit_run_bounds(a);
    lemma_digit_run_bounds(b);
}

/// Index where the extension of `s` starts: its last `.`, or 0 if it has none.
pub open spec fn last_dot(s: Seq<u8>) -> int
    decreases s.len(),
{
    if s.len() == 0 {
        0
    } else if s.last() == 46 {
        s.len() - 1
    } else {
        last_dot(s.drop_last())
    }
}

pub open spec fn extension(s: Seq<u8>) -> Seq<u8> {
    s.subrange(last_dot(s), s.len() as int)
}

pub open spec fn size_key(s: Option<Stat>) -> int {
    match s {
        Some(st) => st.size as int,
        None => 0,
    }
}

pub open spec fn atime_key(s: Option<Stat>) -> int {
    match s {
        Some(st) => st.atime as int,
        None => 0,
    }
}

pub open spec fn mtime_key(s: Option<Stat>) -> int {
    match s {
        Some(st) => st.mtime as int,
        None => 0,
    }
}

pub open spec fn is_dir(s: Option<Stat>) -> bool {
    match s {
        Some(st) => st.mode & TYPE_MASK == DIRECTORY,
        None => false,
    }
}

/// The comparator of a sort key. Metadata that was not fetched counts as 0.
pub open spec fn key_cmp(order: SortOrder, a: LsDisplay, b: LsDisplay) -> Ordering {
    match order {
        SortOrder::Name => lex_cmp(a.file_name@, b.file_name@),
        SortOrder::Size => int_cmp(size_key(a.stat), size_key(b.stat)),
        SortOrder::Extension => if a.file_name@ == b.file_name@ {
            Ordering::Equal
        } else {
            lex_cmp(extension(a.file_name@), extension(b.file_name@))
        },
        SortOrder::AccessTime => int_cmp(atime_key(a.stat), atime_key(b.stat)),
        SortOrder::Time => int_cmp(mtime_key(a.stat), mtime_key(b.stat)),
        SortOrder::Width => int_cmp(a.file_name@.len() as int, b.file_name@.len() as int),
        SortOrder::Version => version_cmp(a.file_name@, b.file_name@),
        SortOrder::Unsorted | SortOrder::Directory => Ordering::Equal,
    }
}

/// Directories go before other entries.
pub open spec fn dirs_first(f: LsFlags) -> bool {
    f.has(GROUP_DIRS_FIRST) || f.has(DIRECTORIES_FIRST)
}

/// The full comparator: directories first when asked, then the sort key,
/// turned around when `reverse` holds (the directories still go first).
#[verifier::opaque]
pub open spec fn entry_cmp(
    order: SortOrder,
    group_dirs: bool,
    reverse: bool,
    a: LsDisplay,
    b: LsDisplay,
) -> Ordering {
    if group_dirs && is_dir(a.stat) != is_dir(b.stat) {
        if is_dir(a.stat) {
            Ordering::Less
        } else {
            Ordering::Greater
        }
    } else if reverse {
        key_cmp(order, b, a)
    } else {
        key_cmp(order, a, b)
    }
}

pub proof fn lemma_lex_cmp_antisymmetric(a: Seq<u8>, b: Seq<u8>)
    ensures
        lex_cmp(a, b) == flip(lex_cmp(b, a)),
    decreases a.len(),
{
    if a.len() > 0 && b.len() > 0 && a[0] == b[0] {
        lemma_lex_cmp_antisymmetric(a.drop_first(), b.drop_first());
    }
}

pub proof fn lemma_version_cmp_antisymmetric(a: Seq<u8>, b: Seq<u8>)
    ensures
        version_cmp(a, b) == flip(version_cmp(b, a)),
    decreases a.len() + b.len(),
{
    if a.len() == 0 || b.len() == 0 {
    } else if is_digit(a[0]) && is_digit(b[0]) {
        let ra = digit_run(a);
        let rb = digit_run(b);
        let x = a.subrange(0, ra as int);
        let y = b.subrange(0, rb as int);
        let sx = x.subrange(zero_run(x) as int, x.len() as int);
        let sy = y.subrange(zero_run(y) as int, y.len() as int);
        lemma_lex_cmp_antisymmetric(sx, sy);
        lemma_digit_run_bounds(a);
        lemma_digit_run_bounds(b);
        if ra == rb {
            lemma_version_cmp_antisymmetric(
                a.subrange(ra as int, a.len() as int),
                b.subrange(rb as int, b.len() as int),
            );
        }
    } else if a[0] == b[0] {
        lemma_version_cmp_antisymmetric(a.drop_first(), b.drop_first());
    }
}

/// Swapping the two entries reverses every comparator.
pub proof fn lemma_entry_cmp_antisymmetric(order: SortOrder, group_dirs: bool,
    reverse: bool, a: LsDisplay, b: LsDisplay)
    ensures
        entry_cmp(order, group_dirs, reverse, a, b) == flip(entry_cmp(order, group_dirs, reverse, b, a)),
{
    reveal(entry_cmp);
    lemma_lex_cmp_antisymmetric(a.file_name@, b.file_name@);
    lemma_lex_cmp_antisymmetric(extension(a.file_name@), extension(b.file_name@));
    lemma_version_cmp_antisymmetric(a.file_name@, b.file_name@);
}

/// Under a trivial order every pair of entries compares equal.
pub proof fn lemma_trivial_order_equal(order: SortOrder, group_dirs: bool,
    reverse: bool, a: LsDisplay, b: LsDisplay)
    requires
        order_is_trivial(order, group_dirs),
    ensures
        entry_cmp(order, group_dirs, reverse, a, b) == Ordering::Equal,
{
    reveal(entry_cmp);
}

fn cmp_int(a: i128, b: i128) -> (r: Ordering)
    ensures
        r == int_cmp(a as int, b as int),
{
    if a < b {
        Ordering::Less
    } else if a > b {
        Ordering::Greater
    } else {
        Ordering::Equal
    }
}

/// Byte-wise lexicographic comparison.
pub fn compare_bytes(a: &[u8], b: &[u8]) -> (r: Ordering)
    ensures
        r == lex_cmp(a@, b@),
{
    let mut i: usize = 0;
    assert(a@.subrange(0, a@.len() as int) == a@);
    assert(b@.subrange(0, b@.len() as int) == b@);
    while i < a.len() && i < b.len() && a[i] == b[i]
        invariant
            i <= a@.len(),
            i <= b@.len(),
            lex_cmp(a@, b@) == lex_cmp(
                a@.subrange(i as int, a@.len() as int),
                b@.subrange(i as int, b@.len() as int),
            ),
        decreases a@.len() - i,
    {
        assert(a@.subrange(i as int, a@.len() as int).drop_first() == a@.subrange(
            i + 1,
            a@.len() as int,
        ));
        assert(b@.subrange(i as int, b@.len() as int).drop_first() == b@.subrange(
            i + 1,
            b@.len() as int,
        ));
        i = i + 1;
    }
    if i == a.len() {
        if i == b.len() {
            Ordering::Equal
        } else {
            Ordering::Less
        }
    } else if i == b.len() {
        Ordering::Greater
    } else {
        cmp_int(a[i] as i128, b[i] as i128)
    }
}

proof fn lemma_last_dot_bounds(s: Seq<u8>)
    ensures
        0 <= last_dot(s) <= s.len(),
    decreases s.len(),
{
    if s.len() > 0 {
        lemma_last_dot_bounds(s.drop_last());
    }
}

/// Index of the last `.` of `s`, or 0 if it has none.
pub fn last_dot_index(s: &[u8]) -> (r: usize)
    ensures
        r == last_dot(s@),
        r <= s@.len(),
{
    let mut idx: usize = 0;
    let mut i: usize = 0;
    while i < s.len()
        invariant
            i <= s@.len(),
            idx == last_dot(s@.subrange(0, i as int)),
            idx <= i,
        decreases s@.len() - i,
    {
        assert(s@.subrange(0, i + 1).drop_last() == s@.subrange(0, i as int));
        if s[i] == 46 {
            idx = i;
        }
        i = i + 1;
    }
    assert(s@.subrange(0, s@.len() as int) == s@);
    idx
}

fn slice_part(s: &[u8], from: usize, to: usize) -> (r: &[u8])
    requires
        from <= to <= s@.len(),
    ensures
        r@ == s@.subrange(from as int, to as int),
{
    vstd::slice::slice_subrange(s, from, to)
}

proof fn lemma_zero_run_split(s: Seq<u8>, i: int)
    requires
        0 <= i <= s.len(),
        forall|k: int| 0 <= k < i ==> #[trigger] s[k] == 48,
    ensures
        zero_run(s) == i + zero_run(s.subrange(i, s.len() as int)),
    decreases i,
{
    if i > 0 {
        lemma_zero_run_split(s.drop_first(), i - 1);
        assert(s.drop_first().subrange(i - 1, s.drop_first().len() as int) == s.subrange(
            i,
            s.len() as int,
        ));
    } else {
        assert(s.subrange(0, s.len() as int) == s);
    }
}

/// End of the run of digits of `s` that starts at `i`.
fn digit_end(s: &[u8], i: usize) -> (e: usize)
    requires
        i <= s@.len(),
    ensures
        i <= e <= s@.len(),
        e - i == digit_run(s@.subrange(i as int, s@.len() as int)),
        forall|k: int| i <= k < e ==> is_digit(#[trigger] s@[k]),
{
    let mut e: usize = i;
    while e < s.len() && s[e] >= 48 && s[e] <= 57
        invariant
            i <= e <= s@.len(),
            forall|k: int| i <= k < e ==> is_digit(#[trigger] s@[k]),
        decreases s@.len() - e,
    {
        e = e + 1;
    }
    proof {
        let x = s@.subrange(i as int, s@.len() as int);
        assert forall|k: int| 0 <= k < e - i implies is_digit(#[trigger] x[k]) by {
            assert(x[k] == s@[i + k]);
        }
        crate::options::lemma_digit_run_split(x, e - i);
        assert(x.subrange(e - i, x.len() as int) == s@.subrange(e as int, s@.len() as int));
    }
    e
}

/// End of the run of `0` bytes of `s` from `i`, stopping at `e`.
fn zero_end(s: &[u8], i: usize, e: usize) -> (z: usize)
    requires
        i <= e <= s@.len(),
    ensures
        i <= z <= e,
        z - i == zero_run(s@.subrange(i as int, e as int)),
{
    let mut z: usize = i;
    while z < e && s[z] == 48
        invariant
            i <= z <= e <= s@.len(),
            forall|k: int| i <= k < z ==> #[trigger] s@[k] == 48,
        decreases e - z,
    {
        z = z + 1;
    }
    proof {
        let x = s@.subrange(i as int, e as int);
        assert forall|k: int| 0 <= k < z - i implies #[trigger] x[k] == 48 by {
            assert(x[k] == s@[i + k]);
        }
        lemma_zero_run_split(x, z - i);
        assert(x.subrange(z - i, x.len() as int) == s@.subrange(z as int, e as int));
    }
    z
}

/// Natural ("version") comparison of two names.
pub fn compare_versions(a: &[u8], b: &[u8]) -> (r: Ordering)
    ensures
        r == version_cmp(a@, b@),
{
    let mut i: usize = 0;
    let mut j: usize = 0;
    assert(a@.subrange(0, a@.len() as int) == a@);
    assert(b@.subrange(0, b@.len() as int) == b@);
    loop
        invariant
            i <= a@.len(),
            j <= b@.len(),
            version_cmp(a@, b@) == version_cmp(
                a@.subrange(i as int, a@.len() as int),
                b@.subrange(j as int, b@.len() as int),
            ),
        decreases a@.len() - i + b@.len() - j,
    {
        let ghost ta = a@.subrange(i as int, a@.len() as int);
        let ghost tb = b@.subrange(j as int, b@.len() as int);
        if i == a.len() || j == b.len() {
            return cmp_int((a.len() - i) as i128, (b.len() - j) as i128);
        }
        let ca = a[i];
        let cb = b[j];
        assert(ta[0] == ca && tb[0] == cb);
        if ca >= 48 && ca <= 57 && cb >= 48 && cb <= 57 {
            let ea = digit_end(a, i);
            let eb = digit_end(b, j);
            proof {
                lemma_digit_run_bounds(ta);
                lemma_digit_run_bounds(tb);
            }
            let za = zero_end(a, i, ea);
            let zb = zero_end(b, j, eb);
            let ghost x = ta.subrange(0, (ea - i) as int);
            let ghost y = tb.subrange(0, (eb - j) as int);
            assert(x == a@.subrange(i as int, ea as int));
            assert(y == b@.subrange(j as int, eb as int));
            assert(x.subrange(zero_run(x) as int, x.len() as int) == a@.subrange(
                za as int,
                ea as int,
            ));
            assert(y.subrange(zero_run(y) as int, y.len() as int) == b@.subrange(
                zb as int,
                eb as int,
            ));
            let c = if ea - za != eb - zb {
                cmp_int((ea - za) as i128, (eb - zb) as i128)
            } else {
                compare_bytes(slice_part(a, za, ea), slice_part(b, zb, eb))
            };
            match c {
                Ordering::Equal => {},
                _ => {
                    return c;
                },
            }
            if ea - i != eb - j {
                return cmp_int((ea - i) as i128, (eb - j) as i128);
            }
            assert(ta.subrange((ea - i) as int, ta.len() as int) == a@.subrange(
                ea as int,
                a@.len() as int,
            ));
            assert(tb.subrange((eb - j) as int, tb.len() as int) == b@.subrange(
                eb as int,
                b@.len() as int,
            ));
            i = ea;
            j = eb;
        } else if ca != cb {
            return cmp_int(ca as i128, cb as i128);
        } else {
            assert(ta.drop_first() == a@.subrange(i + 1, a@.len() as int));
            assert(tb.drop_first() == b@.subrange(j + 1, b@.len() as int));
            i = i + 1;
            j = j + 1;
        }
    }
}

fn stat_is_dir(s: Option<Stat>) -> (r: bool)
    ensures
        r == is_dir(s),
{
    match s {
        Some(st) => st.mode & TYPE_MASK == DIRECTORY,
        None => false,
    }
}

fn size_of_stat(s: Option<Stat>) -> (r: u64)
    ensures
        r == size_key(s),
{
    match s {
        Some(st) => st.size,
        None => 0,
    }
}

fn atime_of_stat(s: Option<Stat>) -> (r: i64)
    ensures
        r == atime_key(s),
{
    match s {
        Some(st) => st.atime,
        None => 0,
    }
}

fn mtime_of_stat(s: Option<Stat>) -> (r: i64)
    ensures
        r == mtime_key(s),
{
    match s {
        Some(st) => st.mtime,
        None => 0,
    }
}

/// Compares two entries by the sort key `order` alone.
pub fn sorting_fn(order: SortOrder, lhs: &LsDisplay, rhs: &LsDisplay) -> (r: Ordering)
    ensures
        r == key_cmp(order, *lhs, *rhs),
{
    match order {
        SortOrder::Name => compare_bytes(lhs.file_name.as_slice(), rhs.file_name.as_slice()),
        SortOrder::Size => cmp_int(size_of_stat(lhs.stat) as i128, size_of_stat(rhs.stat) as i128),
        SortOrder::Extension => {
            let a = lhs.file_name.as_slice();
            let b = rhs.file_name.as_slice();
            if crate::bytes::bytes_eq(a, b) {
                Ordering::Equal
            } else {
                let ia = last_dot_index(a);
                let ib = last_dot_index(b);
                compare_bytes(slice_part(a, ia, a.len()), slice_part(b, ib, b.len()))
            }
        },
        SortOrder::AccessTime => cmp_int(
            atime_of_stat(lhs.stat) as i128,
            atime_of_stat(rhs.stat) as i128,
        ),
        SortOrder::Time => cmp_int(mtime_of_stat(lhs.stat) as i128, mtime_of_stat(rhs.stat) as i128),
        SortOrder::Width => cmp_int(lhs.file_name.len() as i128, rhs.file_name.len() as i128),
        SortOrder::Version => compare_versions(lhs.file_name.as_slice(), rhs.file_name.as_slice()),
        SortOrder::Unsorted | SortOrder::Directory => Ordering::Equal,
    }
}

/// Compares two entries: directories first when `group_dirs` holds, then by
/// `order`, or by `order` turned around when `reverse` holds.
pub fn compare_entries(
    order: SortOrder,
    group_dirs: bool,
    reverse: bool,
    lhs: &LsDisplay,
    rhs: &LsDisplay,
) -> (r: Ordering)
    ensures
        r == entry_cmp(order, group_dirs, reverse, *lhs, *rhs),
{
    reveal(entry_cmp);
    let da = stat_is_dir(lhs.stat);
    let db = stat_is_dir(rhs.stat);
    if group_dirs && da != db {
        if da {
            Ordering::Less
        } else {
            Ordering::Greater
        }
    } else if reverse {
        sorting_fn(order, rhs, lhs)
    } else {
        sorting_fn(order, lhs, rhs)
    }
}

fn ranks_after(order: SortOrder, group_dirs: bool,
    reverse: bool, lhs: &LsDisplay, rhs: &LsDisplay) -> (r: bool)
    ensures
        r == (entry_cmp(order, group_dirs, reverse, *lhs, *rhs) == Ordering::Greater),
{
    match compare_entries(order, group_dirs, reverse, lhs, rhs) {
        Ordering::Greater => true,
        _ => false,
    }
}

/// `a` (first listed at `ia`) may stand right before `b` (first listed at
/// `ib`): it compares less, or equal and came first.
pub open spec fn in_order(
    order: SortOrder,
    group_dirs: bool,
    reverse: bool,
    a: LsDisplay,
    b: LsDisplay,
    ia: int,
    ib: int,
) -> bool {
    let c = entry_cmp(order, group_dirs, reverse, a, b);
    c == Ordering::Less || (c == Ordering::Equal && ia < ib)
}

/// `p` lists each of `0..n` exactly once.
pub open spec fn is_permutation(p: Seq<int>, n: nat) -> bool {
    &&& p.len() == n
    &&& forall|k: int| 0 <= k < n ==> 0 <= #[trigger] p[k] < n
    &&& forall|k: int, l: int| 0 <= k < l < n ==> #[trigger] p[k] != #[trigger] p[l]
}

/// `after` is `before` stably sorted by the comparator: it holds the same
/// entries, rearranged by `p`, each next to a neighbour it may precede.
pub open spec fn stably_sorted(
    order: SortOrder,
    group_dirs: bool,
    reverse: bool,
    before: Seq<LsDisplay>,
    after: Seq<LsDisplay>,
    p: Seq<int>,
) -> bool {
    &&& after.len() == before.len()
    &&& is_permutation(p, before.len())
    &&& forall|k: int| 0 <= k < after.len() ==> after[k] == before[#[trigger] p[k]]
    &&& forall|k: int|
        0 <= k < after.len() - 1 ==> in_order(
            order,
            group_dirs,
            reverse,
            #[trigger] after[k],
            after[k + 1],
            p[k],
            p[k + 1],
        )
}

/// The comparator ranks every pair of entries equal.
pub open spec fn order_is_trivial(order: SortOrder, group_dirs: bool) -> bool {
    !group_dirs && (order == SortOrder::Unsorted || order == SortOrder::Directory)
}

#[verifier::rlimit(60)]
proof fn lemma_insertion_step(
    order: SortOrder,
    group_dirs: bool,
    reverse: bool,
    orig: Seq<LsDisplay>,
    before: Seq<LsDisplay>,
    old_idx: Seq<int>,
    i: int,
    j: int,
)
    requires
        before.len() == orig.len(),
        old_idx.len() == orig.len(),
        0 <= j <= i < orig.len(),
        forall|k: int| 0 <= k < orig.len() ==> before[k] == orig[#[trigger] old_idx[k]],
        forall|k: int| 0 <= k < i ==> 0 <= #[trigger] old_idx[k] < i,
        forall|k: int| i <= k < orig.len() ==> #[trigger] old_idx[k] == k,
        forall|k: int, l: int|
            0 <= k < l < orig.len() ==> #[trigger] old_idx[k] != #[trigger] old_idx[l],
        forall|k: int|
            0 <= k < i - 1 ==> in_order(
                order,
                group_dirs,
                reverse,
                #[trigger] before[k],
                before[k + 1],
                old_idx[k],
                old_idx[k + 1],
            ),
        forall|m: int|
            j <= m < i ==> entry_cmp(order, group_dirs, reverse, #[trigger] before[m], before[i])
                == Ordering::Greater,
        j > 0 ==> entry_cmp(order, group_dirs, reverse, before[j - 1], before[i]) != Ordering::Greater,
    ensures
        ({
            let n = orig.len() as int;
            let v = before.remove(i).insert(j, before[i]);
            let idx = old_idx.remove(i).insert(j, i);
            &&& v.len() == n
            &&& idx.len() == n
            &&& forall|k: int| 0 <= k < n ==> v[k] == orig[#[trigger] idx[k]]
            &&& forall|k: int| 0 <= k < i + 1 ==> 0 <= #[trigger] idx[k] < i + 1
            &&& forall|k: int| i + 1 <= k < n ==> #[trigger] idx[k] == k
            &&& forall|k: int, l: int| 0 <= k < l < n ==> #[trigger] idx[k] != #[trigger] idx[l]
            &&& forall|k: int|
                0 <= k < i ==> in_order(
                    order,
                    group_dirs,
                    reverse,
                    #[trigger] v[k],
                    v[k + 1],
                    idx[k],
                    idx[k + 1],
                )
            &&& (j == i ==> v == before)
        }),
{
    let n = orig.len() as int;
    let x = before[i];
    let v = before.remove(i).insert(j, x);
    let idx = old_idx.remove(i).insert(j, i);
    assert(old_idx[i] == i);
    assert forall|k: int| 0 <= k < n implies v[k] == orig[#[trigger] idx[k]] by {
        if k < j {
        } else if k == j {
        } else if k <= i {
            assert(v[k] == before[k - 1]);
        } else {
        }
    }
    assert forall|k: int| 0 <= k < i + 1 implies 0 <= #[trigger] idx[k] < i + 1 by {
        if k < j {
        } else if k == j {
        } else {
            assert(idx[k] == old_idx[k - 1]);
        }
    }
    assert forall|k: int| i + 1 <= k < n implies #[trigger] idx[k] == k by {
        assert(idx[k] == old_idx[k]);
    }
    assert forall|k: int, l: int| 0 <= k < l < n implies #[trigger] idx[k] != #[trigger] idx[l] by {
        let ok = if k < j {
            k
        } else if k == j {
            i
        } else if k <= i {
            k - 1
        } else {
            k
        };
        let ol = if l < j {
            l
        } else if l == j {
            i
        } else if l <= i {
            l - 1
        } else {
            l
        };
        if k != j && l != j {
            assert(idx[k] == old_idx[ok]);
            assert(idx[l] == old_idx[ol]);
        } else if k == j {
            assert(idx[l] == old_idx[ol]);
            assert(ol != i);
        } else {
            assert(idx[k] == old_idx[ok]);
        }
    }
    assert forall|k: int| 0 <= k < i implies in_order(
        order,
        group_dirs,
        reverse,
        #[trigger] v[k],
        v[k + 1],
        idx[k],
        idx[k + 1],
    ) by {
        if k + 1 < j {
        } else if k + 1 == j {
            assert(idx[k] == old_idx[k]);
            assert(old_idx[k] < i);
        } else if k == j {
            assert(v[k + 1] == before[k]);
            lemma_entry_cmp_antisymmetric(order, group_dirs, reverse, x, before[k]);
        } else {
            assert(v[k] == before[k - 1]);
            assert(v[k + 1] == before[k]);
            assert(idx[k] == old_idx[k - 1]);
            assert(idx[k + 1] == old_idx[k]);
        }
    }
    if j == i {
        assert(v == before);
    }
}

/// Stable insertion sort of `v` by `order` (turned around when `reverse` holds),
/// with directories first when `group_dirs` holds.
pub fn sort_entries(order: SortOrder, group_dirs: bool,
    reverse: bool, v: &mut Vec<LsDisplay>)
    ensures
        exists|p: Seq<int>| stably_sorted(order, group_dirs, reverse, old(v)@, final(v)@, p),
        order_is_trivial(order, group_dirs) ==> final(v)@ == old(v)@,
{
    let ghost orig = v@;
    let n = v.len();
    let ghost mut idx: Seq<int> = Seq::new(n as nat, |k: int| k);
    let mut i: usize = 0;
    while i < n
        invariant
            n == v@.len(),
            orig.len() == n,
            i <= n,
            idx.len() == n,
            forall|k: int| 0 <= k < n ==> v@[k] == orig[#[trigger] idx[k]],
            forall|k: int| 0 <= k < i ==> 0 <= #[trigger] idx[k] < i,
            forall|k: int| i <= k < n ==> #[trigger] idx[k] == k,
            forall|k: int, l: int| 0 <= k < l < n ==> #[trigger] idx[k] != #[trigger] idx[l],
            forall|k: int|
                0 <= k < i - 1 ==> in_order(
                    order,
                    group_dirs,
                    reverse,
                    #[trigger] v@[k],
                    v@[k + 1],
                    idx[k],
                    idx[k + 1],
                ),
            order_is_trivial(order, group_dirs) ==> v@ == orig,
        decreases n - i,
    {
        let ghost before = v@;
        assert(idx[i as int] == i);
        let x = v.remove(i);
        assert(x == orig[i as int]);
        let mut j: usize = i;
        while j > 0 && ranks_after(order, group_dirs, reverse, &v[j - 1], &x)
            invariant
                j <= i,
                i < n,
                before.len() == n,
                v@ == before.remove(i as int),
                x == before[i as int],
                forall|m: int|
                    j <= m < i ==> entry_cmp(order, group_dirs, reverse, #[trigger] before[m], x)
                        == Ordering::Greater,
                order_is_trivial(order, group_dirs) ==> j == i,
            decreases j,
        {
            proof {
                if order_is_trivial(order, group_dirs) {
                    lemma_trivial_order_equal(order, group_dirs, reverse, v@[j - 1], x);
                }
            }
            j = j - 1;
        }
        v.insert(j, x);
        proof {
            let old_idx = idx;
            lemma_insertion_step(order, group_dirs, reverse, orig, before, old_idx, i as int, j as int);
            idx = old_idx.remove(i as int).insert(j as int, i as int);
        }
        i = i + 1;
    }
    assert(stably_sorted(order, group_dirs, reverse, orig, v@, idx));
}

/// Every directory of `s` comes before every entry that is not one.
pub open spec fn dirs_before_others(s: Seq<LsDisplay>) -> bool {
    forall|i: int, j: int|
        0 <= i < j < s.len() && is_dir((#[trigger] s[j]).stat) ==> is_dir((#[trigger] s[i]).stat)
}

/// With directories grouped first, a sorted sequence puts every directory
/// before every other entry, whether or not the order is reversed.
pub proof fn lemma_dirs_precede_others(
    order: SortOrder,
    reverse: bool,
    before: Seq<LsDisplay>,
    after: Seq<LsDisplay>,
    p: Seq<int>,
)
    requires
        stably_sorted(order, true, reverse, before, after, p),
    ensures
        dirs_before_others(after),
{
    reveal(entry_cmp);
    assert forall|k: int| 0 <= k < after.len() - 1 && is_dir(after[k + 1].stat) implies is_dir(
        (#[trigger] after[k]).stat,
    ) by {
        assert(in_order(order, true, reverse, after[k], after[k + 1], p[k], p[k + 1]));
    }
    assert forall|i: int, j: int|
        0 <= i < j < after.len() && is_dir((#[trigger] after[j]).stat) implies is_dir(
        (#[trigger] after[i]).stat,
    ) by {
        lemma_dir_chain(after, i, j);
    }
}

proof fn lemma_dir_chain(s: Seq<LsDisplay>, i: int, j: int)
    requires
        0 <= i < j < s.len(),
        is_dir(s[j].stat),
        forall|k: int| 0 <= k < s.len() - 1 && is_dir(s[k + 1].stat) ==> is_dir(
            (#[trigger] s[k]).stat,
        ),
    ensures
        is_dir(s[i].stat),
    decreases j - i,
{
    assert(is_dir(s[j - 1].stat));
    if i < j - 1 {
        lemma_dir_chain(s, i, j - 1);
    }
}

/// Sorts the entries as `cfg` asks: by its sort key (turned around under
/// `-r`), with directories first under `--group-directories-first`, `-f` or `-U`.
pub fn sort_displays(cfg: &LsConfig, v: &mut Vec<LsDisplay>)
    ensures
        exists|p: Seq<int>|
            stably_sorted(
                cfg.order,
                dirs_first(cfg.flags),
                cfg.flags.has(REVERSE_SORT),
                old(v)@,
                final(v)@,
                p,
            ),
        order_is_trivial(cfg.order, dirs_first(cfg.flags)) ==> final(v)@ == old(v)@,
        dirs_first(cfg.flags) ==> dirs_before_others(final(v)@),
{
    let group_dirs = cfg.flags.contains(GROUP_DIRS_FIRST) || cfg.flags.contains(DIRECTORIES_FIRST);
    let reverse = cfg.flags.contains(REVERSE_SORT);
    let ghost before = v@;
    sort_entries(cfg.order, group_dirs, reverse, v);
    proof {
        let p = choose|p: Seq<int>| stably_sorted(cfg.order, group_dirs, reverse, before, v@, p);
        if group_dirs {
            lemma_dirs_precede_others(cfg.order, reverse, before, v@, p);
        }
        assert(stably_sorted(
            cfg.order,
            dirs_first(cfg.flags),
            cfg.flags.has(REVERSE_SORT),
            before,
            v@,
            p,
        ));
    }
}

pub proof fn lemma_lex_cmp_equal(a: Seq<u8>, b: Seq<u8>)
    ensures
        lex_cmp(a, b) == Ordering::Equal <==> a == b,
    decreases a.len(),
{
    if a.len() == 0 || b.len() == 0 {
        if a.len() == 0 && b.len() == 0 {
            assert(a =~= b);
        }
    } else if a[0] != b[0] {
    } else {
        lemma_lex_cmp_equal(a.drop_first(), b.drop_first());
        if a.drop_first() == b.drop_first() {
            assert(a =~= seq![a[0]] + a.drop_first());
            assert(b =~= seq![b[0]] + b.drop_first());
        }
        if a == b {
            assert(a.drop_first() == b.drop_first());
        }
    }
}

pub proof fn lemma_lex_cmp_transitive(a: Seq<u8>, b: Seq<u8>, c: Seq<u8>)
    requires
        lex_cmp(a, b) == Ordering::Less,
        lex_cmp(b, c) == Ordering::Less,
    ensures
        lex_cmp(a, c) == Ordering::Less,
    decreases a.len(),
{
    if a.len() > 0 && b.len() > 0 && c.len() > 0 && a[0] == b[0] && b[0] == c[0] {
        lemma_lex_cmp_transitive(a.drop_first(), b.drop_first(), c.drop_first());
    }
}

/// The name order is a total order on entries: swapping the entries reverses
/// it, it is transitive, and it ranks two entries equal only when their names are equal.
pub proof fn lemma_name_order(x: LsDisplay, y: LsDisplay, z: LsDisplay)
    ensures
        key_cmp(SortOrder::Name, x, y) == flip(key_cmp(SortOrder::Name, y, x)),
        key_cmp(SortOrder::Name, x, y) == Ordering::Less && key_cmp(SortOrder::Name, y, z)
            == Ordering::Less ==> key_cmp(SortOrder::Name, x, z) == Ordering::Less,
        key_cmp(SortOrder::Name, x, y) == Ordering::Greater && key_cmp(SortOrder::Name, y, z)
            == Ordering::Greater ==> key_cmp(SortOrder::Name, x, z) == Ordering::Greater,
        key_cmp(SortOrder::Name, x, y) == Ordering::Equal <==> x.file_name@ == y.file_name@,
        key_cmp(SortOrder::Name, x, y) == Ordering::Equal && key_cmp(SortOrder::Name, y, z)
            == Ordering::Equal ==> key_cmp(SortOrder::Name, x, z) == Ordering::Equal,
{
    let (a, b, c) = (x.file_name@, y.file_name@, z.file_name@);
    lemma_lex_cmp_antisymmetric(a, b);
    lemma_lex_cmp_antisymmetric(b, c);
    lemma_lex_cmp_antisymmetric(a, c);
    lemma_lex_cmp_equal(a, b);
    lemma_lex_cmp_equal(b, c);
    lemma_lex_cmp_equal(a, c);
    if lex_cmp(a, b) == Ordering::Less && lex_cmp(b, c) == Ordering::Less {
        lemma_lex_cmp_transitive(a, b, c);
    }
    if lex_cmp(a, b) == Ordering::Greater && lex_cmp(b, c) == Ordering::Greater {
        lemma_lex_cmp_transitive(c, b, a);
    }
}

pub open spec fn all_digits(s: Seq<u8>) -> bool {
    forall|k: int| 0 <= k < s.len() ==> is_digit(#[trigger] s[k])
}

proof fn lemma_value_leading_zero(s: Seq<u8>)
    ensures
        decimal_value(seq![48u8] + s) == decimal_value(s),
    decreases s.len(),
{
    if s.len() > 0 {
        lemma_value_leading_zero(s.drop_last());
        assert((seq![48u8] + s).drop_last() == seq![48u8] + s.drop_last());
    } else {
        assert((seq![48u8] + s).drop_last() == s);
    }
}

proof fn lemma_strip_zeros(x: Seq<u8>)
    requires
        all_digits(x),
    ensures
        ({
            let sig = x.subrange(zero_run(x) as int, x.len() as int);
            &&& zero_run(x) <= x.len()
            &&& decimal_value(x) == decimal_value(sig)
            &&& sig.len() > 0 ==> sig[0] != 48
            &&& all_digits(sig)
        }),
    decreases x.len(),
{
    if x.len() > 0 && x[0] == 48 {
        let t = x.drop_first();
        lemma_strip_zeros(t);
        assert(x == seq![48u8] + t);
        lemma_value_leading_zero(t);
        assert(x.subrange(zero_run(x) as int, x.len() as int) == t.subrange(
            zero_run(t) as int,
            t.len() as int,
        ));
    } else {
        assert(x.subrange(0, x.len() as int) == x);
    }
}

proof fn lemma_value_upper(s: Seq<u8>)
    requires
        all_digits(s),
    ensures
        decimal_value(s) < pow(10, s.len()),
    decreases s.len(),
{
    if s.len() > 0 {
        let init = s.drop_last();
        lemma_value_upper(init);
        let v = decimal_value(init);
        let d = (s.last() - 48) as nat;
        assert(d <= 9);
        assert(pow(10, s.len()) == 10 * pow(10, init.len()));
        assert(v * 10 + d < 10 * pow(10, init.len())) by (nonlinear_arith)
            requires
                v < pow(10, init.len()),
                d <= 9,
        ;
    }
}

proof fn lemma_value_lower(s: Seq<u8>)
    requires
        all_digits(s),
        s.len() > 0,
        s[0] != 48,
    ensures
        decimal_value(s) >= pow(10, (s.len() - 1) as nat),
    decreases s.len(),
{
    let init = s.drop_last();
    if s.len() == 1 {
        assert(init.len() == 0);
        assert(s.last() == s[0]);
    } else {
        assert(init[0] == s[0]);
        lemma_value_lower(init);
        let v = decimal_value(init);
        assert(pow(10, (s.len() - 1) as nat) == 10 * pow(10, (init.len() - 1) as nat));
        assert(v * 10 + (s.last() - 48) >= 10 * pow(10, (init.len() - 1) as nat))
            by (nonlinear_arith)
            requires
                v >= pow(10, (init.len() - 1) as nat),
                s.last() >= 48,
        ;
    }
}

/// The value of a digit sequence is its first digit's place value plus the value of the rest.
proof fn lemma_value_front(s: Seq<u8>)
    requires
        all_digits(s),
        s.len() > 0,
    ensures
        decimal_value(s) == (s[0] - 48) * pow(10, (s.len() - 1) as nat) + decimal_value(
            s.drop_first(),
        ),
    decreases s.len(),
{
    let init = s.drop_last();
    let l = (s.last() - 48) as int;
    assert(decimal_value(s) == decimal_value(init) * 10 + l);
    if s.len() == 1 {
        assert(s.drop_first().len() == 0);
        assert(init.len() == 0);
        assert(s.last() == s[0]);
        assert(pow(10, 0) == 1);
        assert(decimal_value(s.drop_first()) == 0);
        assert(decimal_value(init) == 0);
        assert((s[0] - 48) * pow(10, 0) == (s[0] - 48)) by (nonlinear_arith)
            requires
                pow(10, 0) == 1,
        ;
    } else {
        lemma_value_front(init);
        assert(init.drop_first() == s.drop_first().drop_last());
        assert(s.drop_first().last() == s.last());
        assert(init[0] == s[0]);
        let a = (s[0] - 48) as int;
        let p = pow(10, (init.len() - 1) as nat) as int;
        let r = decimal_value(init.drop_first()) as int;
        assert(decimal_value(init) == a * p + r);
        assert(decimal_value(s.drop_first()) == r * 10 + l);
        assert(pow(10, (s.len() - 1) as nat) == 10 * p);
        assert((a * p + r) * 10 + l == a * (10 * p) + (r * 10 + l)) by (nonlinear_arith);
        assert(decimal_value(s) == a * pow(10, (s.len() - 1) as nat) + decimal_value(
            s.drop_first(),
        ));
    }
}

/// Two digit sequences of equal length compare byte-wise as their values compare.
proof fn lemma_lex_is_numeric(s: Seq<u8>, t: Seq<u8>)
    requires
        all_digits(s),
        all_digits(t),
        s.len() == t.len(),
    ensures
        lex_cmp(s, t) == int_cmp(decimal_value(s) as int, decimal_value(t) as int),
    decreases s.len(),
{
    if s.len() > 0 {
        let k = (s.len() - 1) as nat;
        lemma_value_front(s);
        lemma_value_front(t);
        lemma_value_upper(s.drop_first());
        lemma_value_upper(t.drop_first());
        let p = pow(10, k) as int;
        let rs = decimal_value(s.drop_first()) as int;
        let rt = decimal_value(t.drop_first()) as int;
        let a = (s[0] - 48) as int;
        let b = (t[0] - 48) as int;
        if a < b {
            assert(a * p + rs < b * p + rt) by (nonlinear_arith)
                requires
                    a < b,
                    0 <= rs < p,
                    0 <= rt,
            ;
        } else if a > b {
            assert(a * p + rs > b * p + rt) by (nonlinear_arith)
                requires
                    a > b,
                    0 <= rt < p,
                    0 <= rs,
            ;
        } else {
            lemma_lex_is_numeric(s.drop_first(), t.drop_first());
        }
    }
}

/// Digit runs are ordered by their numeric values.
pub proof fn lemma_digits_cmp_is_numeric(x: Seq<u8>, y: Seq<u8>)
    requires
        all_digits(x),
        all_digits(y),
    ensures
        digits_cmp(x, y) == int_cmp(decimal_value(x) as int, decimal_value(y) as int),
{
    lemma_strip_zeros(x);
    lemma_strip_zeros(y);
    let sx = x.subrange(zero_run(x) as int, x.len() as int);
    let sy = y.subrange(zero_run(y) as int, y.len() as int);
    if sx.len() == sy.len() {
        lemma_lex_is_numeric(sx, sy);
    } else {
        lemma_value_upper(sx);
        lemma_value_upper(sy);
        if sx.len() < sy.len() {
            lemma_value_lower(sy);
            lemma_pow_monotone(sx.len(), (sy.len() - 1) as nat);
        } else {
            lemma_value_lower(sx);
            lemma_pow_monotone(sy.len(), (sx.len() - 1) as nat);
        }
    }
}

proof fn lemma_pow_monotone(a: nat, b: nat)
    requires
        a <= b,
    ensures
        pow(10, a) <= pow(10, b),
    decreases b,
{
    if a < b {
        lemma_pow_monotone(a, (b - 1) as nat);
        crate::options::lemma_pow_positive(10, (b - 1) as nat);
    }
}

} // verus!
