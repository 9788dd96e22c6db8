//! Column widths over a set of entries and the long-format rendering of one entry.
use crate::bytes::{lit, push_all, push_str};
use crate::date::{date_of, month_name, Date};
use crate::options::ShownTime;
use crate::entry::{mode_string, push_mode_string, LsDisplay, Stat};
use crate::numfmt::{
    decimal, humanize_number, humanized, num_digits, number_length_u64,
    pad_left, pad_right, push_decimal, push_padded, push_padded_decimal, push_padded_right,
};
use crate::settings::{
    LsConfig, LsFlags, HUMAN_READABLE_SIZES, NO_GROUPS_LISTED, NO_OWNER_LISTED, NUMERIC_IDS, PRINT_AUTHOR,
    SI_SIZES,
};
use vstd::prelude::*;

verus! {

/// The least width of a human-readable size, as in `5.1K`.
pub const HUMAN_READABLE_SIZE_LENGTH: usize = 4;

/// The width kept for the group column when it is not shown.
pub const GROUP_PLACEHOLDER_WIDTH: usize = 7;

/// The widest value of each right- or left-justified column.
#[derive(Clone, Copy, Debug, PartialEq, Eq, Structural)]
pub struct Widths {
    pub size: usize,
    pub links: usize,
    pub owner: usize,
    pub group: usize,
}

impl View for Widths {
    /// The widths of the size, link-count, owner and group columns, in that order.
    type V = (nat, nat, nat, nat);

    open spec fn view(&self) -> (nat, nat, nat, nat) {
        (self.size as nat, self.links as nat, self.owner as nat, self.group as nat)
    }
}

pub open spec fn stat_of(d: LsDisplay) -> Stat {
    match d.stat {
        Some(st) => st,
        None => Stat { mode: 0, nlink: 0, uid: 0, gid: 0, size: 0, atime: 0, mtime: 0, ctime: 0 },
    }
}

/// The owner column of an entry: the resolved name, else (and always
/// under `-n`) the numeric id.
pub open spec fn owner_text(f: LsFlags, d: LsDisplay) -> Seq<u8> {
    match d.owner_name {
        Some(n) if !f.has(NUMERIC_IDS) => n@,
        _ => decimal(stat_of(d).uid as nat),
    }
}

/// The group column of an entry: the resolved name, else (and always
/// under `-n`) the numeric id.
pub open spec fn group_text(f: LsFlags, d: LsDisplay) -> Seq<u8> {
    match d.group_name {
        Some(n) if !f.has(NUMERIC_IDS) => n@,
        _ => decimal(stat_of(d).gid as nat),
    }
}

pub open spec fn max(a: nat, b: nat) -> nat {
    if a < b {
        b
    } else {
        a
    }
}

/// The width the size of `d` needs: its human-readable form (at least 4
/// bytes wide) under `-h`, else the digits of its raw byte count.
pub open spec fn size_width(f: LsFlags, d: LsDisplay) -> nat {
    if f.has(HUMAN_READABLE_SIZES) {
        max(
            HUMAN_READABLE_SIZE_LENGTH as nat,
            humanized(stat_of(d).size as nat, f.has(SI_SIZES)).len(),
        )
    } else {
        num_digits(stat_of(d).size as nat)
    }
}

/// The widths before any entry is seen.
pub open spec fn initial_widths(f: LsFlags) -> (nat, nat, nat, nat) {
    (0, 0, 0, if f.has(NO_GROUPS_LISTED) {
        GROUP_PLACEHOLDER_WIDTH as nat
    } else {
        0
    })
}

/// The widths after entry `d` is taken into account; entries without metadata change nothing.
pub open spec fn widen(f: LsFlags, w: (nat, nat, nat, nat), d: LsDisplay) -> (nat, nat, nat, nat) {
    if d.stat is None {
        w
    } else {
        (
            max(w.0, size_width(f, d)),
            max(w.1, num_digits(stat_of(d).nlink as nat)),
            max(w.2, owner_text(f, d).len()),
            if f.has(NO_GROUPS_LISTED) {
                w.3
            } else {
                max(w.3, group_text(f, d).len())
            },
        )
    }
}

/// The widths (size, link count, owner, group) over all of `entries`.
pub open spec fn widths_of(f: LsFlags, entries: Seq<LsDisplay>) -> (nat, nat, nat, nat)
    decreases entries.len(),
{
    if entries.len() == 0 {
        initial_widths(f)
    } else {
        widen(f, widths_of(f, entries.drop_last()), entries.last())
    }
}

/// Appends the owner column text of `d`.
fn push_owner(out: &mut Vec<u8>, cfg: &LsConfig, d: &LsDisplay)
    ensures
        final(out)@ == old(out)@ + owner_text(cfg.flags, *d),
{
    let numeric = cfg.flags.contains(NUMERIC_IDS);
    match &d.owner_name {
        Some(n) if !numeric => push_all(out, n.as_slice()),
        _ => {
            let uid = match d.stat {
                Some(st) => st.uid,
                None => 0,
            };
            push_decimal(out, uid as u128);
        },
    }
}

/// Appends the group column text of `d`.
fn push_group(out: &mut Vec<u8>, cfg: &LsConfig, d: &LsDisplay)
    ensures
        final(out)@ == old(out)@ + group_text(cfg.flags, *d),
{
    let numeric = cfg.flags.contains(NUMERIC_IDS);
    match &d.group_name {
        Some(n) if !numeric => push_all(out, n.as_slice()),
        _ => {
            let gid = match d.stat {
                Some(st) => st.gid,
                None => 0,
            };
            push_decimal(out, gid as u128);
        },
    }
}

fn owner_vec(cfg: &LsConfig, d: &LsDisplay) -> (r: Vec<u8>)
    ensures
        r@ == owner_text(cfg.flags, *d),
{
    let mut v: Vec<u8> = Vec::new();
    push_owner(&mut v, cfg, d);
    v
}

fn group_vec(cfg: &LsConfig, d: &LsDisplay) -> (r: Vec<u8>)
    ensures
        r@ == group_text(cfg.flags, *d),
{
    let mut v: Vec<u8> = Vec::new();
    push_group(&mut v, cfg, d);
    v
}

fn max_usize(a: usize, b: usize) -> (r: usize)
    ensures
        r == max(a as nat, b as nat),
{
    if a < b {
        b
    } else {
        a
    }
}

/// Takes entry `d` into the widths `w`.
pub fn widen_with(cfg: &LsConfig, w: Widths, d: &LsDisplay) -> (r: Widths)
    ensures
        r@ == widen(cfg.flags, w@, *d),
{
    match d.stat {
        None => w,
        Some(st) => {
            let size = if cfg.flags.contains(HUMAN_READABLE_SIZES) {
                let h = humanize_number(st.size, cfg.flags.contains(SI_SIZES));
                max_usize(HUMAN_READABLE_SIZE_LENGTH, h.len())
            } else {
                number_length_u64(st.size) as usize
            };
            let links = number_length_u64(st.nlink) as usize;
            let owner = owner_vec(cfg, d).len();
            let group = if cfg.flags.contains(NO_GROUPS_LISTED) {
                w.group
            } else {
                max_usize(w.group, group_vec(cfg, d).len())
            };
            Widths {
                size: max_usize(w.size, size),
                links: max_usize(w.links, links),
                owner: max_usize(w.owner, owner),
                group,
            }
        },
    }
}

/// The widths of the size, link-count, owner and group columns over all entries, in one pass.
pub fn aggregate_widths(cfg: &LsConfig, displays: &Vec<LsDisplay>) -> (r: Widths)
    ensures
        r@ == widths_of(cfg.flags, displays@),
{
    let mut w = Widths {
        size: 0,
        links: 0,
        owner: 0,
        group: if cfg.flags.contains(NO_GROUPS_LISTED) {
            GROUP_PLACEHOLDER_WIDTH
        } else {
            0
        },
    };
    let mut i: usize = 0;
    while i < displays.len()
        invariant
            i <= displays@.len(),
            w@ == widths_of(cfg.flags, displays@.subrange(0, i as int)),
        decreases displays@.len() - i,
    {
        assert(displays@.subrange(0, i + 1).drop_last() == displays@.subrange(0, i as int));
        w = widen_with(cfg, w, &displays[i]);
        i = i + 1;
    }
    assert(displays@.subrange(0, displays@.len() as int) == displays@);
    w
}

/// The aggregated widths cover every entry with metadata.
pub proof fn lemma_widths_cover(f: LsFlags, entries: Seq<LsDisplay>)
    ensures
        forall|k: int|
            0 <= k < entries.len() && (#[trigger] entries[k]).stat is Some ==> {
                &&& size_width(f, entries[k]) <= widths_of(f, entries).0
                &&& num_digits(stat_of(entries[k]).nlink as nat) <= widths_of(f, entries).1
                &&& owner_text(f, entries[k]).len() <= widths_of(f, entries).2
            },
    decreases entries.len(),
{
    if entries.len() > 0 {
        let init = entries.drop_last();
        lemma_widths_cover(f, init);
        assert forall|k: int|
            0 <= k < entries.len() && (#[trigger] entries[k]).stat is Some implies {
                &&& size_width(f, entries[k]) <= widths_of(f, entries).0
                &&& num_digits(stat_of(entries[k]).nlink as nat) <= widths_of(f, entries).1
                &&& owner_text(f, entries[k]).len() <= widths_of(f, entries).2
            } by {
            if k < entries.len() - 1 {
                assert(entries[k] == init[k]);
            }
        }
    }
}

/// Without `-h`, the size width covers the decimal digits of every entry's raw size.
pub proof fn lemma_size_width_covers_digits(f: LsFlags, entries: Seq<LsDisplay>)
    requires
        !f.has(HUMAN_READABLE_SIZES),
    ensures
        forall|k: int|
            0 <= k < entries.len() && (#[trigger] entries[k]).stat is Some ==> num_digits(
                stat_of(entries[k]).size as nat,
            ) <= widths_of(f, entries).0,
{
    lemma_widths_cover(f, entries);
}

/// `size` divided by `scale` until it is below `scale` (no division when `scale` is 1).
pub open spec fn scaled_size(size: nat, scale: nat) -> nat
    decreases size
    via scaled_size_decreases
{
    if scale <= 1 || size < scale {
        size
    } else {
        scaled_size(size / scale, scale)
    }
}

#[via_fn]
proof fn scaled_size_decreases(size: nat, scale: nat) {
    if !(scale <= 1 || size < scale) {
        assert(size / scale < size) by (nonlinear_arith)
            requires
                scale > 1,
                size >= scale,
        ;
    }
}

/// The size column of `d`, right-justified in `width`.
pub open spec fn size_field(f: LsFlags, scale: nat, width: nat, d: LsDisplay) -> Seq<u8> {
    if f.has(HUMAN_READABLE_SIZES) {
        pad_left(humanized(stat_of(d).size as nat, f.has(SI_SIZES)), width)
    } else {
        pad_left(decimal(scaled_size(stat_of(d).size as nat, scale)), width)
    }
}

/// `n` with at least two digits.
pub open spec fn two_digits(n: nat) -> Seq<u8> {
    if n < 10 {
        seq![48u8] + decimal(n)
    } else {
        decimal(n)
    }
}

/// `Mon DD HH:MM ` for a date.
pub open spec fn date_field(d: Date) -> Seq<u8> {
    lit(month_name(d.month as int)) + lit(" ") + pad_left(decimal(d.days as nat), 2) + lit(" ")
        + two_digits(d.hours as nat) + lit(":") + two_digits(d.minutes as nat) + lit(" ")
}

/// The timestamp shown for an entry: its access time under `-u`, else its
/// status-change time; times before the epoch are shown as the epoch.
pub open spec fn shown_time(t: ShownTime, st: Stat) -> int {
    let secs = match t {
        ShownTime::Access => st.atime,
        ShownTime::Change => st.ctime,
    };
    if secs < 0 {
        0
    } else {
        secs as int
    }
}

/// A column of text left-justified in `width`, then a space; nothing when `shown` fails.
pub open spec fn text_column(shown: bool, text: Seq<u8>, width: nat) -> Seq<u8> {
    if shown {
        pad_right(text, width) + lit(" ")
    } else {
        Seq::empty()
    }
}

/// The type and permission column and the link count of `d`.
pub open spec fn head_part(w: (nat, nat, nat, nat), d: LsDisplay) -> Seq<u8> {
    mode_string(stat_of(d).mode) + lit(" ") + pad_left(decimal(stat_of(d).nlink as nat), w.1) + lit(
        " ",
    )
}

/// The owner, group and author columns of `d`, each where it is shown.
pub open spec fn id_part(f: LsFlags, w: (nat, nat, nat, nat), d: LsDisplay) -> Seq<u8> {
    text_column(!f.has(NO_OWNER_LISTED), owner_text(f, d), w.2) + text_column(
        !f.has(NO_GROUPS_LISTED),
        group_text(f, d),
        w.3,
    ) + text_column(f.has(PRINT_AUTHOR), owner_text(f, d), w.2)
}

/// The size, timestamp and name of `d`, and the newline.
pub open spec fn tail_part(
    f: LsFlags,
    scale: nat,
    t: ShownTime,
    w: (nat, nat, nat, nat),
    d: LsDisplay,
) -> Seq<u8> {
    size_field(f, scale, w.0, d) + lit(" ") + date_field(date_of(shown_time(t, stat_of(d))))
        + d.file_name@ + lit("\n")
}

/// The long-format line of `d` under the widths `w`.
pub open spec fn long_line(
    f: LsFlags,
    scale: nat,
    t: ShownTime,
    w: (nat, nat, nat, nat),
    d: LsDisplay,
) -> Seq<u8> {
    head_part(w, d) + id_part(f, w, d) + tail_part(f, scale, t, w, d)
}

fn scale_size(size: u64, scale: u64) -> (r: u64)
    ensures
        r == scaled_size(size as nat, scale as nat),
{
    if scale <= 1 {
        return size;
    }
    let mut s = size;
    while s >= scale
        invariant
            scale > 1,
            scaled_size(s as nat, scale as nat) == scaled_size(size as nat, scale as nat),
        decreases s,
    {
        assert(s / scale < s) by (nonlinear_arith)
            requires
                scale > 1,
                s >= scale,
        ;
        s = s / scale;
    }
    s
}

fn push_two_digits(out: &mut Vec<u8>, n: i64)
    requires
        0 <= n < 100,
    ensures
        final(out)@ == old(out)@ + two_digits(n as nat),
{
    if n < 10 {
        out.push(48);
    }
    push_decimal(out, n as u128);
}

/// Appends `Mon DD HH:MM ` for `date`.
pub fn print_date(out: &mut Vec<u8>, date: &Date)
    requires
        date.wf(),
    ensures
        final(out)@ == old(out)@ + date_field(*date),
{
    push_str(out, date.month_as_str());
    push_str(out, " ");
    push_padded_decimal(out, date.days as u128, 2);
    push_str(out, " ");
    push_two_digits(out, date.hours);
    push_str(out, ":");
    push_two_digits(out, date.minutes);
    push_str(out, " ");
    assert(final(out)@ =~= old(out)@ + date_field(*date));
}

fn push_text_column(out: &mut Vec<u8>, shown: bool, text: &Vec<u8>, width: usize)
    ensures
        final(out)@ == old(out)@ + text_column(shown, text@, width as nat),
{
    if shown {
        push_padded_right(out, text, width);
        push_str(out, " ");
        assert(final(out)@ =~= old(out)@ + text_column(shown, text@, width as nat));
    } else {
        assert(final(out)@ =~= old(out)@ + text_column(shown, text@, width as nat));
    }
}

/// Appends the size column of `d`.
pub fn print_size(out: &mut Vec<u8>, cfg: &LsConfig, width: usize, d: &LsDisplay)
    ensures
        final(out)@ == old(out)@ + size_field(cfg.flags, cfg.spec_scale() as nat, width as nat, *d),
{
    let size = match d.stat {
        Some(st) => st.size,
        None => 0,
    };
    if cfg.flags.contains(HUMAN_READABLE_SIZES) {
        let h = humanize_number(size, cfg.flags.contains(SI_SIZES));
        push_padded(out, &h, width);
    } else {
        let scaled = scale_size(size, cfg.scale());
        push_padded_decimal(out, scaled as u128, width);
    }
}

fn push_head(out: &mut Vec<u8>, w: &Widths, d: &LsDisplay)
    ensures
        final(out)@ == old(out)@ + head_part(w@, *d),
{
    let st = stat_value(d);
    push_mode_string(out, st.mode);
    push_str(out, " ");
    push_padded_decimal(out, st.nlink as u128, w.links);
    push_str(out, " ");
    assert(final(out)@ =~= old(out)@ + head_part(w@, *d));
}

fn push_ids(out: &mut Vec<u8>, cfg: &LsConfig, w: &Widths, d: &LsDisplay)
    ensures
        final(out)@ == old(out)@ + id_part(cfg.flags, w@, *d),
{
    let owner = owner_vec(cfg, d);
    let group = group_vec(cfg, d);
    push_text_column(out, !cfg.flags.contains(NO_OWNER_LISTED), &owner, w.owner);
    push_text_column(out, !cfg.flags.contains(NO_GROUPS_LISTED), &group, w.group);
    push_text_column(out, cfg.flags.contains(PRINT_AUTHOR), &owner, w.owner);
    assert(final(out)@ =~= old(out)@ + id_part(cfg.flags, w@, *d));
}

fn push_tail(out: &mut Vec<u8>, cfg: &LsConfig, w: &Widths, d: &LsDisplay)
    ensures
        final(out)@ == old(out)@ + tail_part(cfg.flags, cfg.spec_scale() as nat, cfg.time_shown, w@, *d),
{
    let st = stat_value(d);
    print_size(out, cfg, w.size, d);
    push_str(out, " ");
    let t = match cfg.time_shown {
        ShownTime::Access => st.atime,
        ShownTime::Change => st.ctime,
    };
    let secs = if t < 0 {
        0
    } else {
        t
    };
    let date = Date::new(secs);
    print_date(out, &date);
    push_all(out, d.file_name.as_slice());
    push_str(out, "\n");
    assert(final(out)@ =~= old(out)@ + tail_part(cfg.flags, cfg.spec_scale() as nat, cfg.time_shown, w@, *d));
}

fn stat_value(d: &LsDisplay) -> (r: Stat)
    ensures
        r == stat_of(*d),
{
    match d.stat {
        Some(st) => st,
        None => Stat { mode: 0, nlink: 0, uid: 0, gid: 0, size: 0, atime: 0, mtime: 0, ctime: 0 },
    }
}

/// Appends the long-format line of `d`.
pub fn print_entry_long(out: &mut Vec<u8>, cfg: &LsConfig, w: &Widths, d: &LsDisplay)
    ensures
        final(out)@ == old(out)@ + long_line(cfg.flags, cfg.spec_scale() as nat, cfg.time_shown, w@, *d),
{
    push_head(out, w, d);
    push_ids(out, cfg, w, d);
    push_tail(out, cfg, w, d);
    assert(final(out)@ =~= old(out)@ + long_line(cfg.flags, cfg.spec_scale() as nat, cfg.time_shown, w@, *d));
}

} // verus!
