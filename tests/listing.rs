use puppyutils::date::Date;
use puppyutils::entry::{
    listed_names, push_mode_string, select_names, skip, LsDisplay, Permissions, Stat,
};
use puppyutils::layout::{columns_for, print_all, print_into_columns};
use puppyutils::listing::{needs_stat, traverse};
use puppyutils::numfmt::{humanize_number, number_length_u64};
use puppyutils::options::{
    size_arg_to_multiplier, Formatting, IndicatorStyle, SizeParseError, SortOrder, When,
};
use puppyutils::render::{aggregate_widths, print_date, print_entry_long, Widths};
use puppyutils::settings::{Arg, ArgError, LsConfig, LsOption};
use puppyutils::sorting::{compare_bytes, compare_versions, sort_entries, sorting_fn};
use std::cmp::Ordering;

fn names(list: &[&str]) -> Vec<Vec<u8>> {
    list.iter().map(|s| s.as_bytes().to_vec()).collect()
}

fn file_stat(mode: u16, nlink: u64, size: u64) -> Stat {
    Stat { mode, nlink, uid: 1000, gid: 1000, size, atime: 0, mtime: 0, ctime: 0 }
}

fn config_with(args: &[&str]) -> LsConfig {
    let mut cfg = LsConfig::new(80);
    for a in args {
        let arg = if let Some(long) = a.strip_prefix("--") {
            Arg::Long(long.as_bytes().to_vec())
        } else if let Some(short) = a.strip_prefix('-') {
            Arg::Short(short.chars().next().unwrap())
        } else {
            Arg::Value(a.as_bytes().to_vec())
        };
        cfg.apply_argument(arg, None).unwrap();
    }
    cfg
}

fn sorted_names(cfg: &LsConfig, entries: Vec<LsDisplay>) -> Vec<String> {
    let mut v = entries;
    puppyutils::sorting::sort_displays(cfg, &mut v);
    v.iter().map(|d| String::from_utf8(d.file_name.clone()).unwrap()).collect()
}

#[test]
fn hidden_entries_are_skipped_by_default() {
    let cfg = LsConfig::new(80);
    let kept = select_names(&cfg, names(&[".", "..", ".hidden", "a", "b"]));
    assert_eq!(kept, names(&["a", "b"]));
}

#[test]
fn all_flag_keeps_dot_and_dotdot() {
    let cfg = config_with(&["-a"]);
    let kept = select_names(&cfg, names(&[".", "..", ".hidden", "a"]));
    assert_eq!(kept, names(&[".", "..", ".hidden", "a"]));
}

#[test]
fn almost_all_flag_drops_dot_and_dotdot() {
    let cfg = config_with(&["-A"]);
    let kept = select_names(&cfg, names(&[".", "..", ".hidden", "a"]));
    assert_eq!(kept, names(&[".hidden", "a"]));
    assert!(skip(&cfg, b"."));
    assert!(!skip(&cfg, b".x"));
}

#[test]
fn unsorted_order_keeps_collection_order() {
    let entries: Vec<LsDisplay> = ["c", "a", "b", "a"]
        .iter()
        .map(|n| LsDisplay::new(n.as_bytes().to_vec(), None))
        .collect();
    let mut v = entries;
    sort_entries(SortOrder::Unsorted, false, false, &mut v);
    let got: Vec<&[u8]> = v.iter().map(|d| d.file_name.as_slice()).collect();
    assert_eq!(got, vec![&b"c"[..], b"a", b"b", b"a"]);
}

#[test]
fn name_comparator_is_antisymmetric_and_transitive() {
    let x = LsDisplay::new(b"abc".to_vec(), None);
    let y = LsDisplay::new(b"abd".to_vec(), None);
    let z = LsDisplay::new(b"b".to_vec(), None);
    assert_eq!(sorting_fn(SortOrder::Name, &x, &y), Ordering::Less);
    assert_eq!(sorting_fn(SortOrder::Name, &y, &x), Ordering::Greater);
    assert_eq!(sorting_fn(SortOrder::Name, &y, &z), Ordering::Less);
    assert_eq!(sorting_fn(SortOrder::Name, &x, &z), Ordering::Less);
    assert_eq!(sorting_fn(SortOrder::Name, &x, &x), Ordering::Equal);
    assert_eq!(compare_bytes(b"ab", b"abc"), Ordering::Less);
}

#[test]
fn size_formatter_values() {
    assert_eq!(humanize_number(0, false), b"0.0".to_vec());
    assert_eq!(humanize_number(1024, false), b"1.0K".to_vec());
    assert_eq!(humanize_number(1000, true), b"1.0K".to_vec());
    assert_eq!(humanize_number(1536, false), b"1.5K".to_vec());
    assert_eq!(humanize_number(1048576, false), b"1.0M".to_vec());
    assert_eq!(humanize_number(1023, false), b"1023.0".to_vec());
}

#[test]
fn epoch_zero_is_thursday_first_of_january_1970() {
    let d = Date::new(0);
    assert_eq!((d.year, d.month, d.days), (1970, 1, 1));
    assert_eq!((d.hours, d.minutes, d.seconds), (0, 0, 0));
    assert_eq!(d.weekday, 4);
    assert_eq!(d.month_as_str(), "Jan");
}

#[test]
fn one_day_after_epoch_is_friday() {
    let d = Date::new(86400);
    assert_eq!((d.year, d.month, d.days), (1970, 1, 2));
    assert_eq!(d.weekday, 5);
}

#[test]
fn leap_day_and_later_dates() {
    // 2000-02-29 12:34:56 UTC
    let d = Date::new(951827696);
    assert_eq!((d.year, d.month, d.days, d.hours, d.minutes, d.seconds), (2000, 2, 29, 12, 34, 56));
    assert_eq!(d.weekday, 2);
    // 2024-12-31 23:59:59 UTC
    let d = Date::new(1735689599);
    assert_eq!((d.year, d.month, d.days, d.hours, d.minutes, d.seconds), (2024, 12, 31, 23, 59, 59));
}

#[test]
fn date_rendering() {
    let mut out = Vec::new();
    print_date(&mut out, &Date::new(0));
    assert_eq!(out, b"Jan  1 00:00 ".to_vec());
    let mut out = Vec::new();
    print_date(&mut out, &Date::new(951827696));
    assert_eq!(out, b"Feb 29 12:34 ".to_vec());
}

#[test]
fn width_aggregator_covers_size_digits() {
    let cfg = config_with(&["-l"]);
    let mut entries = vec![
        LsDisplay::new(b"a".to_vec(), Some(file_stat(0o100644, 1, 12))),
        LsDisplay::new(b"b".to_vec(), Some(file_stat(0o100644, 123, 123456))),
        LsDisplay::new(b"c".to_vec(), None),
    ];
    entries[0].owner_name = Some(b"root".to_vec());
    let w = aggregate_widths(&cfg, &entries);
    assert_eq!(w, Widths { size: 6, links: 3, owner: 4, group: 4 });
}

#[test]
fn width_aggregator_human_readable_has_fixed_minimum() {
    let cfg = config_with(&["-l", "-h"]);
    let entries = vec![LsDisplay::new(b"a".to_vec(), Some(file_stat(0o100644, 1, 12)))];
    let w = aggregate_widths(&cfg, &entries);
    assert_eq!(w.size, 4);
}

#[test]
fn column_count_follows_terminal_width() {
    assert_eq!(columns_for(80, 100), 7);
    assert_eq!(columns_for(80, 3), 3);
    assert_eq!(columns_for(8, 5), 1);
    assert_eq!(columns_for(80, 0), 1);
}

#[test]
fn column_layout_rows() {
    let list = names(&["a", "b", "c", "d", "e"]);
    assert_eq!(print_into_columns(&list, 2), b"a  b\nc  d\ne\n".to_vec());
    assert_eq!(print_into_columns(&list, 5), b"a  b  c  d  e\n".to_vec());
    assert_eq!(print_into_columns(&Vec::new(), 3), b"\n".to_vec());
    // width 30: floor(floor(30 / 3) / 3) - 1 = 2 names per row
    assert_eq!(print_all(&list, 30), b"a  b\nc  d\ne\n".to_vec());
}

#[test]
fn permission_string_is_ten_bytes() {
    for mode in [0u16, 0o100644, 0o040755, 0o120777, 0o170000, 0xffff] {
        let mut out = Vec::new();
        push_mode_string(&mut out, mode);
        assert_eq!(out.len(), 10);
    }
    let mut out = Vec::new();
    push_mode_string(&mut out, 0o040751);
    assert_eq!(out, b"drwxr-x--x".to_vec());
    let p = Permissions::new(&file_stat(0o100640, 1, 0));
    assert_eq!(p.owner(), *b"rw-");
    assert_eq!(p.group(), *b"r--");
    assert_eq!(p.others(), *b"---");
}

#[test]
fn default_listing_hides_dotfiles_and_sorts_by_name() {
    let cfg = LsConfig::new(80);
    let kept = select_names(&cfg, names(&["b.txt", ".hidden", "a.txt"]));
    let entries = kept.into_iter().map(|n| LsDisplay::new(n, None)).collect();
    assert_eq!(traverse(&cfg, entries), b"a.txt  b.txt\n".to_vec());
}

#[test]
fn all_listing_sorts_hidden_first() {
    let cfg = config_with(&["-a"]);
    let kept = select_names(&cfg, names(&["b.txt", ".hidden", "a.txt"]));
    let entries = kept.into_iter().map(|n| LsDisplay::new(n, None)).collect();
    assert_eq!(traverse(&cfg, entries), b".hidden  a.txt  b.txt\n".to_vec());
}

#[test]
fn long_listing_of_regular_file() {
    let cfg = config_with(&["-l"]);
    assert!(needs_stat(&cfg));
    let mut d = LsDisplay::new(b"notes".to_vec(), Some(file_stat(0o100644, 1, 12)));
    d.owner_name = Some(b"alice".to_vec());
    d.group_name = Some(b"staff".to_vec());
    let out = traverse(&cfg, vec![d]);
    assert_eq!(out, b"-rw-r--r-- 1 alice staff 12 Jan  1 00:00 notes\n".to_vec());
    assert!(out.starts_with(b"-rw-r--r--"));
}

#[test]
fn long_line_falls_back_to_numeric_ids_and_pads() {
    let cfg = config_with(&["-l"]);
    let d = LsDisplay::new(b"x".to_vec(), Some(file_stat(0o040755, 2, 4096)));
    let w = Widths { size: 6, links: 3, owner: 6, group: 4 };
    let mut out = Vec::new();
    print_entry_long(&mut out, &cfg, &w, &d);
    assert_eq!(out, b"drwxr-xr-x   2 1000   1000   4096 Jan  1 00:00 x\n".to_vec());
}

#[test]
fn long_line_with_block_size_and_human_sizes() {
    let mut cfg = config_with(&["-l", "-G", "-g"]);
    cfg.apply_argument(Arg::Long(b"block-size".to_vec()), Some(b"1K".to_vec())).unwrap();
    let d = LsDisplay::new(b"y".to_vec(), Some(file_stat(0o100600, 1, 5000)));
    let w = Widths { size: 1, links: 1, owner: 0, group: 0 };
    let mut out = Vec::new();
    print_entry_long(&mut out, &cfg, &w, &d);
    assert_eq!(out, b"-rw------- 1 4 Jan  1 00:00 y\n".to_vec());
    let cfg = config_with(&["-l", "-o", "-g", "-h"]);
    let mut out = Vec::new();
    let w = Widths { size: 4, links: 1, owner: 0, group: 0 };
    print_entry_long(&mut out, &cfg, &w, &d);
    assert_eq!(out, b"-rw------- 1 4.9K Jan  1 00:00 y\n".to_vec());
}

#[test]
fn version_sort_is_numeric() {
    assert_eq!(compare_versions(b"file2", b"file10"), Ordering::Less);
    assert_eq!(compare_versions(b"file10", b"file2"), Ordering::Greater);
    assert_eq!(compare_versions(b"a1", b"a01"), Ordering::Less);
    assert_eq!(compare_versions(b"a007b", b"a7b"), Ordering::Greater);
    assert_eq!(compare_versions(b"v1.2", b"v1.2"), Ordering::Equal);
    assert_eq!(compare_versions(b"abc", b"abd"), Ordering::Less);
    assert_eq!(
        compare_versions(b"f99999999999999999999", b"f100000000000000000000"),
        Ordering::Less
    );
    assert_eq!(compare_versions(b"f9x", b"f9y"), Ordering::Less);
    let cfg = config_with(&["-v"]);
    let entries = ["f10", "f2", "f1"].iter().map(|n| LsDisplay::new(n.as_bytes().to_vec(), None)).collect();
    assert_eq!(sorted_names(&cfg, entries), vec!["f1", "f2", "f10"]);
}

#[test]
fn extension_and_width_sorts() {
    let cfg = config_with(&["-X"]);
    let entries = ["b.txt", "a.rs", "c"].iter().map(|n| LsDisplay::new(n.as_bytes().to_vec(), None)).collect();
    assert_eq!(sorted_names(&cfg, entries), vec!["a.rs", "b.txt", "c"]);
    let mut cfg = LsConfig::new(80);
    cfg.apply_argument(Arg::Long(b"sort".to_vec()), Some(b"width".to_vec())).unwrap();
    let entries = ["ccc", "a", "bb", "d"].iter().map(|n| LsDisplay::new(n.as_bytes().to_vec(), None)).collect();
    assert_eq!(sorted_names(&cfg, entries), vec!["a", "d", "bb", "ccc"]);
}

#[test]
fn size_sort_and_directories_first() {
    let cfg = config_with(&["-S", "--group-directories-first"]);
    let entries = vec![
        LsDisplay::new(b"big".to_vec(), Some(file_stat(0o100644, 1, 900))),
        LsDisplay::new(b"dir".to_vec(), Some(file_stat(0o040755, 2, 4096))),
        LsDisplay::new(b"small".to_vec(), Some(file_stat(0o100644, 1, 3))),
        LsDisplay::new(b"tie".to_vec(), Some(file_stat(0o100644, 1, 3))),
    ];
    assert_eq!(sorted_names(&cfg, entries), vec!["dir", "small", "tie", "big"]);
}

#[test]
fn block_size_values() {
    assert_eq!(size_arg_to_multiplier(b"10"), Ok(10));
    assert_eq!(size_arg_to_multiplier(b"1K"), Ok(1024));
    assert_eq!(size_arg_to_multiplier(b"2KiB"), Ok(2048));
    assert_eq!(size_arg_to_multiplier(b"3MB"), Ok(3_000_000));
    assert_eq!(size_arg_to_multiplier(b"1E"), Ok(1 << 60));
    assert_eq!(size_arg_to_multiplier(b"K"), Err(SizeParseError::InvalidArgument));
    assert_eq!(size_arg_to_multiplier(b""), Err(SizeParseError::InvalidArgument));
    assert_eq!(size_arg_to_multiplier(b"0K"), Err(SizeParseError::InvalidArgument));
    assert_eq!(size_arg_to_multiplier(b"5X"), Err(SizeParseError::InvalidSuffix));
    assert_eq!(size_arg_to_multiplier(b"1Z"), Err(SizeParseError::TooLarge));
    assert_eq!(size_arg_to_multiplier(b"16E"), Err(SizeParseError::TooLarge));
    assert_eq!(size_arg_to_multiplier(b"99999999999999999999"), Err(SizeParseError::TooLarge));
}

#[test]
fn argument_application() {
    let mut cfg = LsConfig::new(80);
    assert_eq!(cfg.directory(), b".");
    assert!(LsOption::recognize(&Arg::Long(b"format".to_vec())).unwrap().takes_value());
    assert!(!LsOption::recognize(&Arg::Short('l')).unwrap().takes_value());
    assert_eq!(LsOption::recognize(&Arg::Long(b"bogus".to_vec())), None);
    cfg.apply_argument(Arg::Long(b"format".to_vec()), Some(b"commas".to_vec())).unwrap();
    assert_eq!(cfg.format, Formatting::Commas);
    assert_eq!(
        cfg.apply_argument(Arg::Long(b"format".to_vec()), None),
        Err(ArgError::MissingValue)
    );
    assert_eq!(
        cfg.apply_argument(Arg::Long(b"color".to_vec()), Some(b"sometimes".to_vec())),
        Err(ArgError::InvalidValue)
    );
    assert_eq!(
        cfg.apply_argument(Arg::Long(b"block-size".to_vec()), Some(b"7Q".to_vec())),
        Err(ArgError::BlockSize(SizeParseError::InvalidSuffix))
    );
    assert_eq!(cfg.apply_argument(Arg::Long(b"hide".to_vec()), None), Err(ArgError::Unsupported));
    cfg.apply_argument(Arg::Long(b"color".to_vec()), Some(b"tty".to_vec())).unwrap();
    assert_eq!(cfg.color, When::Auto);
    cfg.apply_argument(Arg::Short('p'), None).unwrap();
    assert_eq!(cfg.indicator, IndicatorStyle::Slash);
    cfg.apply_argument(Arg::Value(b"/tmp".to_vec()), None).unwrap();
    assert_eq!(cfg.directory(), b"/tmp");
    cfg.apply_argument(Arg::Short('U'), None).unwrap();
    assert_eq!(cfg.order, SortOrder::Unsorted);
    cfg.apply_argument(Arg::Short('u'), None).unwrap();
    assert_eq!(cfg.order, SortOrder::AccessTime);
    cfg.apply_argument(Arg::Short('l'), None).unwrap();
    cfg.apply_argument(Arg::Short('u'), None).unwrap();
    assert_eq!(cfg.order, SortOrder::AccessTime);
    cfg.apply_argument(Arg::Short('S'), None).unwrap();
    cfg.apply_argument(Arg::Short('u'), None).unwrap();
    assert_eq!(cfg.order, SortOrder::Name);
}

#[test]
fn digit_counts() {
    assert_eq!(number_length_u64(0), 1);
    assert_eq!(number_length_u64(9), 1);
    assert_eq!(number_length_u64(10), 2);
    assert_eq!(number_length_u64(999_999_999), 9);
    assert_eq!(number_length_u64(u64::MAX), 20);
}

#[test]
fn recursive_listing_prints_directory_header() {
    let cfg = config_with(&["-R", "src"]);
    let entries = vec![LsDisplay::new(b"lib.rs".to_vec(), None)];
    assert_eq!(traverse(&cfg, entries), b"src:\nlib.rs\n".to_vec());
}

#[test]
fn unknown_options_are_refused() {
    let mut cfg = LsConfig::new(80);
    assert_eq!(cfg.apply_argument(Arg::Short('y'), None), Err(ArgError::UnknownOption));
    assert_eq!(
        cfg.apply_argument(Arg::Long(b"no-such-option".to_vec()), None),
        Err(ArgError::UnknownOption)
    );
    assert_eq!(cfg.flags, LsConfig::new(80).flags);
    assert_eq!(cfg.apply_argument(Arg::Stdio, None), Ok(()));
}

#[test]
fn reverse_flag_reverses_the_order() {
    let cfg = config_with(&["-r"]);
    let entries = ["b", "c", "a"].iter().map(|n| LsDisplay::new(n.as_bytes().to_vec(), None)).collect();
    assert_eq!(sorted_names(&cfg, entries), vec!["c", "b", "a"]);
    let cfg = config_with(&["-r", "-a"]);
    let entries = vec![
        LsDisplay::new(b"a.txt".to_vec(), None),
        LsDisplay::new(b".hidden".to_vec(), None),
    ];
    assert_eq!(traverse(&cfg, entries), b"a.txt  .hidden\n".to_vec());
}

#[test]
fn numeric_ids_flag_shows_ids() {
    let cfg = config_with(&["-l", "-n"]);
    let mut d = LsDisplay::new(b"notes".to_vec(), Some(file_stat(0o100644, 1, 12)));
    d.owner_name = Some(b"alice".to_vec());
    d.group_name = Some(b"staff".to_vec());
    let out = traverse(&cfg, vec![d]);
    assert_eq!(out, b"-rw-r--r-- 1 1000 1000 12 Jan  1 00:00 notes\n".to_vec());
}

#[test]
fn directory_flag_lists_the_directory_itself() {
    let cfg = config_with(&["-d"]);
    assert_eq!(listed_names(&cfg, names(&["a", "b"])), names(&["."]));
    let cfg = config_with(&["-d", "src"]);
    assert_eq!(listed_names(&cfg, Vec::new()), names(&["src"]));
    let cfg = LsConfig::new(80);
    assert_eq!(listed_names(&cfg, names(&[".x", "y"])), names(&["y"]));
}

#[test]
fn reverse_keeps_directories_first() {
    let cfg = config_with(&["--group-directories-first", "-r"]);
    let entries = vec![
        LsDisplay::new(b"a".to_vec(), Some(file_stat(0o040755, 2, 4096))),
        LsDisplay::new(b"b".to_vec(), Some(file_stat(0o100644, 1, 1))),
        LsDisplay::new(b"c".to_vec(), Some(file_stat(0o040755, 2, 4096))),
        LsDisplay::new(b"d".to_vec(), Some(file_stat(0o100644, 1, 1))),
    ];
    assert_eq!(traverse(&cfg, entries), b"c  a  d  b\n".to_vec());
    let cfg = config_with(&["-U", "-r"]);
    let entries = vec![
        LsDisplay::new(b"x".to_vec(), Some(file_stat(0o100644, 1, 1))),
        LsDisplay::new(b"y".to_vec(), Some(file_stat(0o040755, 2, 4096))),
        LsDisplay::new(b"z".to_vec(), Some(file_stat(0o100644, 1, 1))),
    ];
    assert_eq!(sorted_names(&cfg, entries), vec!["y", "x", "z"]);
}

#[test]
fn access_time_flag_shows_access_time_in_long_format() {
    let cfg = config_with(&["-l", "-u"]);
    assert_eq!(cfg.order, SortOrder::Name);
    let mut st = file_stat(0o100644, 1, 12);
    st.atime = 86400 + 3600 + 120;
    st.ctime = 0;
    let mut d = LsDisplay::new(b"f".to_vec(), Some(st));
    d.owner_name = Some(b"u".to_vec());
    d.group_name = Some(b"g".to_vec());
    assert_eq!(traverse(&cfg, vec![d]), b"-rw-r--r-- 1 u g 12 Jan  2 01:02 f\n".to_vec());
}
