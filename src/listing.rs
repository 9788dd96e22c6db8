//! The whole listing of one directory: ordering, widths and rendering.
use crate::bytes::{lit, push_all, push_str};
use crate::entry::LsDisplay;
use crate::layout::{column_count, columns_output, print_all, views};
use crate::options::{Formatting, SortOrder};
use crate::render::{aggregate_widths, long_line, print_entry_long, widths_of};
use crate::settings::{LsConfig, HUMAN_READABLE_SIZES, RECURSIVE, REVERSE_SORT};
use crate::sorting::{dirs_before_others, dirs_first, sort_displays, stably_sorted};
use vstd::prelude::*;

verus! {

/// The listing needs each entry's metadata: a long listing, a sort key
/// read from metadata, human-readable sizes, or directories grouped first.
pub open spec fn spec_needs_stat(cfg: LsConfig) -> bool {
    cfg.format == Formatting::Long || cfg.order == SortOrder::Size || cfg.order
        == SortOrder::AccessTime || cfg.order == SortOrder::Time || cfg.flags.has(
        HUMAN_READABLE_SIZES,
    ) || dirs_first(cfg.flags)
}

/// Whether the metadata of each entry must be fetched.
pub fn needs_stat(cfg: &LsConfig) -> (r: bool)
    ensures
        r == spec_needs_stat(*cfg),
{
    let long = match cfg.format {
        Formatting::Long => true,
        _ => false,
    };
    let by_meta = match cfg.order {
        SortOrder::Size | SortOrder::AccessTime | SortOrder::Time => true,
        _ => false,
    };
    long || by_meta || cfg.flags.contains(HUMAN_READABLE_SIZES) || cfg.flags.contains(
        crate::settings::GROUP_DIRS_FIRST,
    ) || cfg.flags.contains(crate::settings::DIRECTORIES_FIRST)
}

/// The long-format lines of `entries`, in order.
pub open spec fn long_lines(cfg: LsConfig, w: (nat, nat, nat, nat), entries: Seq<LsDisplay>) -> Seq<u8>
    decreases entries.len(),
{
    if entries.len() == 0 {
        Seq::empty()
    } else {
        long_lines(cfg, w, entries.drop_last()) + long_line(
            cfg.flags,
            cfg.spec_scale() as nat,
            cfg.time_shown,
            w,
            entries.last(),
        )
    }
}

pub open spec fn entry_names(entries: Seq<LsDisplay>) -> Seq<Seq<u8>> {
    entries.map_values(|d: LsDisplay| d.file_name@)
}

/// Under `-R`, the directory's name and a colon on a line before its entries.
pub open spec fn header(cfg: LsConfig) -> Seq<u8> {
    if cfg.flags.has(RECURSIVE) {
        cfg.spec_directory() + lit(":\n")
    } else {
        Seq::empty()
    }
}

/// The output for the already ordered `entries`: long-format lines with
/// widths taken over all of them, or the names packed into columns.
pub open spec fn listing_of(cfg: LsConfig, entries: Seq<LsDisplay>) -> Seq<u8> {
    header(cfg) + if cfg.format == Formatting::Long {
        long_lines(cfg, widths_of(cfg.flags, entries), entries)
    } else {
        columns_output(entry_names(entries), column_count(cfg.width, entries.len()))
    }
}

fn is_long_format(cfg: &LsConfig) -> (r: bool)
    ensures
        r == (cfg.format == Formatting::Long),
{
    match cfg.format {
        Formatting::Long => true,
        _ => false,
    }
}

/// Orders the entries of a directory as `cfg` asks and renders them.
pub fn traverse(cfg: &LsConfig, displays: Vec<LsDisplay>) -> (r: Vec<u8>)
    ensures
        exists|sorted: Seq<LsDisplay>, p: Seq<int>|
            {
                &&& stably_sorted(
                    cfg.order,
                    dirs_first(cfg.flags),
                    cfg.flags.has(REVERSE_SORT),
                    displays@,
                    sorted,
                    p,
                )
                &&& dirs_first(cfg.flags) ==> dirs_before_others(sorted)
                &&& r@ == listing_of(*cfg, sorted)
            },
{
    let ghost before = displays@;
    let mut displays = displays;
    sort_displays(cfg, &mut displays);
    let ghost sorted = displays@;
    let mut out: Vec<u8> = Vec::new();
    if cfg.flags.contains(RECURSIVE) {
        push_all(&mut out, cfg.directory());
        push_str(&mut out, ":\n");
    }
    assert(out@ =~= header(*cfg));
    if is_long_format(cfg) {
        let w = aggregate_widths(cfg, &displays);
        let mut i: usize = 0;
        while i < displays.len()
            invariant
                displays@ == sorted,
                i <= sorted.len(),
                w@ == widths_of(cfg.flags, sorted),
                out@ == header(*cfg) + long_lines(*cfg, w@, sorted.subrange(0, i as int)),
            decreases sorted.len() - i,
        {
            assert(sorted.subrange(0, i + 1).drop_last() == sorted.subrange(0, i as int));
            print_entry_long(&mut out, cfg, &w, &displays[i]);
            assert(out@ =~= header(*cfg) + long_lines(*cfg, w@, sorted.subrange(0, i + 1)));
            i = i + 1;
        }
        assert(sorted.subrange(0, sorted.len() as int) == sorted);
    } else {
        let mut names: Vec<Vec<u8>> = Vec::new();
        let n = displays.len();
        let mut i: usize = 0;
        crate::bytes::reverse_vec(&mut displays);
        while i < n
            invariant
                n == sorted.len(),
                i + displays@.len() == n,
                forall|k: int| 0 <= k < displays@.len() ==> displays@[k] == sorted[n - 1 - k],
                names@.len() == i,
                views(names@) == entry_names(sorted.subrange(0, i as int)),
            decreases n - i,
        {
            assert(displays@[displays@.len() - 1] == sorted[i as int]);
            let d = displays.pop().unwrap();
            let ghost name = d.file_name@;
            assert(name == sorted[i as int].file_name@);
            let ghost old_names = names@;
            names.push(d.file_name);
            assert forall|k: int| 0 <= k <= i implies #[trigger] views(names@)[k] == entry_names(
                sorted.subrange(0, i + 1),
            )[k] by {
                if k < i {
                    assert(names@[k] == old_names[k]);
                    assert(views(old_names)[k] == entry_names(sorted.subrange(0, i as int))[k]);
                }
            }
            assert(views(names@) =~= entry_names(sorted.subrange(0, i + 1)));
            i = i + 1;
        }
        assert(sorted.subrange(0, n as int) == sorted);
        let packed = print_all(&names, cfg.width);
        push_all(&mut out, packed.as_slice());
    }
    proof {
        let p = choose|p: Seq<int>|
            stably_sorted(
                cfg.order,
                dirs_first(cfg.flags),
                cfg.flags.has(REVERSE_SORT),
                before,
                sorted,
                p,
            );
        assert(stably_sorted(
            cfg.order,
            dirs_first(cfg.flags),
            cfg.flags.has(REVERSE_SORT),
            before,
            sorted,
            p,
        ));
    }
    out
}

} // verus!
