//! The resolved configuration of a listing and the rules that turn
//! command-line arguments into it.
use crate::bytes::{bytes_is, lit};
use crate::options::{
    block_size_of, formatting_of, ShownTime, indicator_of, quoting_of, size_arg_to_multiplier, sort_order_of,
    when_of, Dereference, Formatting, IndicatorStyle, QuotingStyle, SizeParseError, SortOrder,
    TimeStampType, When,
};
use vstd::prelude::*;

verus! {

/// The block size of the allocated-size column when none is given.
pub const DEFAULT_BLOCK_SIZE: usize = 512;

/// The independent on/off display switches, one bit each.
#[derive(Clone, Copy, Debug, PartialEq, Eq, Structural)]
pub struct LsFlags {
    pub bits: u32,
}

/// `-a`: names starting with `.` are shown, `.` and `..` included.
pub const NOT_IGNORE_DOTS: u32 = 1 << 0;

/// `-A`: names starting with `.` are shown, but not `.` and `..`.
pub const IGNORE_DOTS_EXCEPT_DIRS: u32 = 1 << 1;

/// `--author`: an author column, the owner on this platform.
pub const PRINT_AUTHOR: u32 = 1 << 2;

/// `-d`
pub const LIST_DIRECTORIES: u32 = 1 << 3;

pub const C_STYLE_ESCAPED: u32 = 1 << 4;

/// `-B`
pub const IGNORE_TILDE_ENTRIES: u32 = 1 << 5;

pub const LIST_BY_COLUMNS: u32 = 1 << 6;

/// `-D`
pub const EMACS_DIRED_MODE: u32 = 1 << 7;

/// Cleared by `-f`.
pub const SORT_ENTRIES: u32 = 1 << 8;

/// `-g`: no owner column.
pub const NO_OWNER_LISTED: u32 = 1 << 9;

/// `-G`, `-o`: no group column.
pub const NO_GROUPS_LISTED: u32 = 1 << 10;

/// `-h`: sizes scaled with a unit letter.
pub const HUMAN_READABLE_SIZES: u32 = 1 << 11;

/// `--si`: human-readable sizes in powers of 1000.
pub const SI_SIZES: u32 = 1 << 12;

/// `-i`
pub const PRINT_INODE_INDEXES: u32 = 1 << 13;

pub const KB_BLOCKS: u32 = 1 << 14;

/// `--group-directories-first`.
pub const GROUP_DIRS_FIRST: u32 = 1 << 15;

/// `-L`
pub const DEREF_SYMLINKS: u32 = 1 << 16;

pub const COMMA_SEP_LIST: u32 = 1 << 17;

/// `-n`
pub const NUMERIC_IDS: u32 = 1 << 18;

pub const LITERAL_NAMES: u32 = 1 << 19;

/// `-r`
pub const REVERSE_SORT: u32 = 1 << 20;

/// `-R`: each entry is preceded by its name and a colon.
pub const RECURSIVE: u32 = 1 << 21;

/// `-s`
pub const PRINT_ALLOCATED_SIZE: u32 = 1 << 22;

pub const SORT_BY_VERSION_NUMBER: u32 = 1 << 23;

/// `-x`
pub const LIST_BY_LINES: u32 = 1 << 24;

pub const PRINT_SECURITY_CONTEXT: u32 = 1 << 25;

/// `--zero`
pub const END_WITH_NUL: u32 = 1 << 26;

pub const ONE_FILE_PER_LINE: u32 = 1 << 27;

/// `-q`; cleared by `--show-control-chars`.
pub const HIDE_CONTROL_CHARS: u32 = 1 << 28;

/// `-Q`
pub const QUOTE_ENTRIES: u32 = 1 << 29;

/// Set by `-f` and `-U`: directories precede other entries.
pub const DIRECTORIES_FIRST: u32 = 1 << 30;

/// `-c`, applied after the other options.
pub const LOWERCASE_C: u32 = 1 << 31;

impl LsFlags {
    /// Whether every switch of `mask` is on.
    pub open spec fn has(self, mask: u32) -> bool {
        self.bits & mask == mask
    }

    /// Every switch off.
    pub fn empty() -> (r: LsFlags)
        ensures
            r.bits == 0,
    {
        LsFlags { bits: 0 }
    }

    /// Whether every switch of `mask` is on.
    pub fn contains(&self, mask: u32) -> (r: bool)
        ensures
            r == self.has(mask),
    {
        self.bits & mask == mask
    }

    /// Turns the switches of `mask` on.
    pub fn insert(&mut self, mask: u32)
        ensures
            final(self).bits == old(self).bits | mask,
    {
        self.bits = self.bits | mask;
    }

    /// Turns the switches of `mask` off.
    pub fn remove(&mut self, mask: u32)
        ensures
            final(self).bits == old(self).bits & !mask,
    {
        self.bits = self.bits & !mask;
    }
}

/// Every option of a listing, resolved before any entry is read.
#[derive(Debug)]
pub struct LsConfig {
    /// Key by which entries are ordered.
    pub order: SortOrder,
    /// Kind of timestamp shown.
    pub time_ty: TimeStampType,
    /// Which timestamp the long format shows.
    pub time_shown: ShownTime,
    /// The on/off switches.
    pub flags: LsFlags,
    /// Quoting style for names.
    pub quoting: QuotingStyle,
    /// Marker appended to names.
    pub indicator: IndicatorStyle,
    /// Which symlinks are followed.
    pub deref: Dereference,
    /// `--color`.
    pub color: When,
    /// `--hyperlink`.
    pub hyperlink_file_names: When,
    /// `--classify` and `-F`.
    pub classify_files: When,
    /// Directory to list; the current directory when absent.
    pub dir: Option<Vec<u8>>,
    /// Block size.
    pub blk_size: usize,
    /// Shape of the listing.
    pub format: Formatting,
    /// Width of the terminal, in columns.
    pub width: u16,
    /// Scale from `--block-size`.
    pub size_unit: Option<u64>,
}

impl LsConfig {
    /// The configuration before any argument is read.
    pub open spec fn spec_new(width: u16) -> LsConfig {
        LsConfig {
            order: SortOrder::Name,
            time_ty: TimeStampType::Locale,
            time_shown: ShownTime::Change,
            flags: LsFlags { bits: 0 },
            quoting: QuotingStyle::Literal,
            indicator: IndicatorStyle::Plain,
            deref: Dereference::Never,
            color: When::Always,
            hyperlink_file_names: When::Always,
            classify_files: When::Always,
            dir: None,
            blk_size: DEFAULT_BLOCK_SIZE,
            format: Formatting::Horizontal,
            width,
            size_unit: None,
        }
    }

    /// The configuration before any argument is read, for a terminal `width` columns wide.
    pub fn new(width: u16) -> (r: LsConfig)
        ensures
            r == LsConfig::spec_new(width),
    {
        LsConfig {
            order: SortOrder::Name,
            time_ty: TimeStampType::Locale,
            time_shown: ShownTime::Change,
            flags: LsFlags::empty(),
            quoting: QuotingStyle::Literal,
            indicator: IndicatorStyle::Plain,
            deref: Dereference::Never,
            color: When::Always,
            hyperlink_file_names: When::Always,
            classify_files: When::Always,
            dir: None,
            blk_size: DEFAULT_BLOCK_SIZE,
            format: Formatting::Horizontal,
            width,
            size_unit: None,
        }
    }

    pub open spec fn spec_directory(&self) -> Seq<u8> {
        match self.dir {
            Some(d) => d@,
            None => lit("."),
        }
    }

    /// The directory to list: the one named, else `.`.
    pub fn directory(&self) -> (r: &[u8])
        ensures
            r@ == self.spec_directory(),
    {
        match &self.dir {
            Some(d) => d.as_slice(),
            None => ".".as_bytes(),
        }
    }

    /// The scale by which raw sizes are divided in the size column.
    pub open spec fn spec_scale(&self) -> u64 {
        match self.size_unit {
            Some(u) => if u == 0 { 1 } else { u },
            None => 1,
        }
    }

    /// The scale by which raw sizes are divided in the size column (1 when none was given).
    pub fn scale(&self) -> (r: u64)
        ensures
            r == self.spec_scale(),
            r >= 1,
    {
        match self.size_unit {
            Some(u) => if u == 0 { 1 } else { u },
            None => 1,
        }
    }
}

/// A command-line argument, as the tokenizer hands it over.
#[derive(Debug)]
pub enum Arg {
    /// `-x`
    Short(char),
    /// `--name`
    Long(Vec<u8>),
    /// An operand.
    Value(Vec<u8>),
    /// A lone `-`.
    Stdio,
}

/// Why an argument was refused.
#[derive(Clone, Copy, Debug, PartialEq, Eq, Structural)]
pub enum ArgError {
    /// The option needs a value and none was given.
    MissingValue,
    /// The option's value is not one it accepts.
    InvalidValue,
    /// The `--block-size` value was refused.
    BlockSize(SizeParseError),
    /// The option is recognised but not supported.
    Unsupported,
    /// The option is not one that a listing knows.
    UnknownOption,
}

/// The error of an option that needs a value and was given none.
pub fn needs_an_argument() -> (r: ArgError)
    ensures
        r == ArgError::MissingValue,
{
    ArgError::MissingValue
}

/// The error of an option whose value is not one it accepts.
pub fn invalid_argument() -> (r: ArgError)
    ensures
        r == ArgError::InvalidValue,
{
    ArgError::InvalidValue
}

/// The options that a listing understands.
#[derive(Clone, Copy, Debug, PartialEq, Eq, Structural)]
pub enum LsOption {
    All,
    AlmostAll,
    Author,
    Escape,
    BlockSize,
    IgnoreBackups,
    CtimeKey,
    Columns,
    Color,
    Directory,
    Dired,
    NoSortAll,
    Classify,
    FileType,
    Format,
    FullTime,
    NoOwner,
    GroupDirsFirst,
    NoGroup,
    HumanReadable,
    Si,
    Hide,
    Hyperlink,
    Indicator,
    Inode,
    Ignore,
    LongFormat,
    Dereference,
    Commas,
    NumericIds,
    Literal,
    LongNoGroup,
    Slash,
    HideControl,
    ShowControl,
    QuoteName,
    Quoting,
    Reverse,
    Recursive,
    AllocatedSize,
    SortSize,
    Sort,
    AccessTime,
    NoSortDirs,
    VersionSort,
    SortExtension,
    Zero,
    OnePerLine,
    /// Recognised, and without effect on the listing.
    Ignored,
}

pub open spec fn arg_is_short(arg: Arg, c: char) -> bool {
    arg matches Arg::Short(x) && x == c
}

pub open spec fn arg_is_long(arg: Arg, s: &str) -> bool {
    arg matches Arg::Long(name) && name@ == lit(s)
}

fn is_short(arg: &Arg, c: char) -> (r: bool)
    ensures
        r == arg_is_short(*arg, c),
{
    match arg {
        Arg::Short(x) => *x == c,
        _ => false,
    }
}

fn is_long(arg: &Arg, s: &str) -> (r: bool)
    ensures
        r == arg_is_long(*arg, s),
{
    match arg {
        Arg::Long(name) => bytes_is(name.as_slice(), s),
        _ => false,
    }
}

/// The option that an argument names, if it names one.
pub open spec fn option_of(arg: Arg) -> Option<LsOption> {
    if arg_is_short(arg, 'a') || arg_is_long(arg, "all") {
        Some(LsOption::All)
    } else if arg_is_short(arg, 'A') || arg_is_long(arg, "almost-all") {
        Some(LsOption::AlmostAll)
    } else if arg_is_long(arg, "author") {
        Some(LsOption::Author)
    } else if arg_is_short(arg, 'b') || arg_is_long(arg, "escape") {
        Some(LsOption::Escape)
    } else if arg_is_long(arg, "block-size") {
        Some(LsOption::BlockSize)
    } else if arg_is_short(arg, 'B') || arg_is_long(arg, "ignore-backups") {
        Some(LsOption::IgnoreBackups)
    } else if arg_is_short(arg, 'c') {
        Some(LsOption::CtimeKey)
    } else if arg_is_short(arg, 'C') {
        Some(LsOption::Columns)
    } else if arg_is_long(arg, "color") {
        Some(LsOption::Color)
    } else if arg_is_short(arg, 'd') || arg_is_long(arg, "directory") {
        Some(LsOption::Directory)
    } else if arg_is_short(arg, 'D') || arg_is_long(arg, "dired") {
        Some(LsOption::Dired)
    } else if arg_is_short(arg, 'f') {
        Some(LsOption::NoSortAll)
    } else if arg_is_short(arg, 'F') || arg_is_long(arg, "classify") {
        Some(LsOption::Classify)
    } else if arg_is_long(arg, "file-type") {
        Some(LsOption::FileType)
    } else if arg_is_long(arg, "format") {
        Some(LsOption::Format)
    } else if arg_is_long(arg, "full-time") {
        Some(LsOption::FullTime)
    } else if arg_is_short(arg, 'g') {
        Some(LsOption::NoOwner)
    } else if arg_is_long(arg, "group-directories-first") {
        Some(LsOption::GroupDirsFirst)
    } else if arg_is_short(arg, 'G') || arg_is_long(arg, "no-group") {
        Some(LsOption::NoGroup)
    } else if arg_is_short(arg, 'h') || arg_is_long(arg, "human-readable") {
        Some(LsOption::HumanReadable)
    } else if arg_is_long(arg, "si") {
        Some(LsOption::Si)
    } else if arg_is_long(arg, "hide") {
        Some(LsOption::Hide)
    } else if arg_is_long(arg, "hyperlink") {
        Some(LsOption::Hyperlink)
    } else if arg_is_long(arg, "indicator-style") {
        Some(LsOption::Indicator)
    } else if arg_is_short(arg, 'i') || arg_is_long(arg, "inode") {
        Some(LsOption::Inode)
    } else if arg_is_short(arg, 'I') || arg_is_long(arg, "ignore") {
        Some(LsOption::Ignore)
    } else if arg_is_short(arg, 'l') {
        Some(LsOption::LongFormat)
    } else if arg_is_short(arg, 'L') || arg_is_long(arg, "dereference") {
        Some(LsOption::Dereference)
    } else if arg_is_short(arg, 'm') {
        Some(LsOption::Commas)
    } else if arg_is_short(arg, 'n') || arg_is_long(arg, "numeric-uid-gid") {
        Some(LsOption::NumericIds)
    } else if arg_is_short(arg, 'N') || arg_is_long(arg, "literal") {
        Some(LsOption::Literal)
    } else if arg_is_short(arg, 'o') {
        Some(LsOption::LongNoGroup)
    } else if arg_is_short(arg, 'p') {
        Some(LsOption::Slash)
    } else if arg_is_short(arg, 'q') || arg_is_long(arg, "hide-control-chars") {
        Some(LsOption::HideControl)
    } else if arg_is_long(arg, "show-control-chars") {
        Some(LsOption::ShowControl)
    } else if arg_is_short(arg, 'Q') || arg_is_long(arg, "quote-name") {
        Some(LsOption::QuoteName)
    } else if arg_is_long(arg, "quoting-style") {
        Some(LsOption::Quoting)
    } else if arg_is_short(arg, 'r') || arg_is_long(arg, "reverse") {
        Some(LsOption::Reverse)
    } else if arg_is_short(arg, 'R') || arg_is_long(arg, "recursive") {
        Some(LsOption::Recursive)
    } else if arg_is_short(arg, 's') || arg_is_long(arg, "size") {
        Some(LsOption::AllocatedSize)
    } else if arg_is_short(arg, 'S') {
        Some(LsOption::SortSize)
    } else if arg_is_long(arg, "sort") {
        Some(LsOption::Sort)
    } else if arg_is_short(arg, 'u') {
        Some(LsOption::AccessTime)
    } else if arg_is_short(arg, 'U') {
        Some(LsOption::NoSortDirs)
    } else if arg_is_short(arg, 'v') {
        Some(LsOption::VersionSort)
    } else if arg_is_short(arg, 'X') {
        Some(LsOption::SortExtension)
    } else if arg_is_long(arg, "zero") {
        Some(LsOption::Zero)
    } else if arg_is_short(arg, '1') {
        Some(LsOption::OnePerLine)
    } else if arg_is_short(arg, 'H') || arg_is_long(arg, "dereference-command-line") || arg_is_long(arg, "derefence-command-line-symlinks") || arg_is_long(arg, "time") || arg_is_long(arg, "time-style") || arg_is_short(arg, 't') || arg_is_short(arg, 'T') || arg_is_long(arg, "tabsize") || arg_is_short(arg, 'w') || arg_is_long(arg, "width") || arg_is_short(arg, 'x') || arg_is_short(arg, 'Z') || arg_is_long(arg, "context") {
        Some(LsOption::Ignored)
    } else {
        None
    }
}

impl LsOption {
    /// The option that `arg` names, if any.
    pub fn recognize(arg: &Arg) -> (r: Option<LsOption>)
        ensures
            r == option_of(*arg),
    {
        if is_short(arg, 'a') || is_long(arg, "all") {
            Some(LsOption::All)
        } else if is_short(arg, 'A') || is_long(arg, "almost-all") {
            Some(LsOption::AlmostAll)
        } else if is_long(arg, "author") {
            Some(LsOption::Author)
        } else if is_short(arg, 'b') || is_long(arg, "escape") {
            Some(LsOption::Escape)
        } else if is_long(arg, "block-size") {
            Some(LsOption::BlockSize)
        } else if is_short(arg, 'B') || is_long(arg, "ignore-backups") {
            Some(LsOption::IgnoreBackups)
        } else if is_short(arg, 'c') {
            Some(LsOption::CtimeKey)
        } else if is_short(arg, 'C') {
            Some(LsOption::Columns)
        } else if is_long(arg, "color") {
            Some(LsOption::Color)
        } else if is_short(arg, 'd') || is_long(arg, "directory") {
            Some(LsOption::Directory)
        } else if is_short(arg, 'D') || is_long(arg, "dired") {
            Some(LsOption::Dired)
        } else if is_short(arg, 'f') {
            Some(LsOption::NoSortAll)
        } else if is_short(arg, 'F') || is_long(arg, "classify") {
            Some(LsOption::Classify)
        } else if is_long(arg, "file-type") {
            Some(LsOption::FileType)
        } else if is_long(arg, "format") {
            Some(LsOption::Format)
        } else if is_long(arg, "full-time") {
            Some(LsOption::FullTime)
        } else if is_short(arg, 'g') {
            Some(LsOption::NoOwner)
        } else if is_long(arg, "group-directories-first") {
            Some(LsOption::GroupDirsFirst)
        } else if is_short(arg, 'G') || is_long(arg, "no-group") {
            Some(LsOption::NoGroup)
        } else if is_short(arg, 'h') || is_long(arg, "human-readable") {
            Some(LsOption::HumanReadable)
        } else if is_long(arg, "si") {
            Some(LsOption::Si)
        } else if is_long(arg, "hide") {
            Some(LsOption::Hide)
        } else if is_long(arg, "hyperlink") {
            Some(LsOption::Hyperlink)
        } else if is_long(arg, "indicator-style") {
            Some(LsOption::Indicator)
        } else if is_short(arg, 'i') || is_long(arg, "inode") {
            Some(LsOption::Inode)
        } else if is_short(arg, 'I') || is_long(arg, "ignore") {
            Some(LsOption::Ignore)
        } else if is_short(arg, 'l') {
            Some(LsOption::LongFormat)
        } else if is_short(arg, 'L') || is_long(arg, "dereference") {
            Some(LsOption::Dereference)
        } else if is_short(arg, 'm') {
            Some(LsOption::Commas)
        } else if is_short(arg, 'n') || is_long(arg, "numeric-uid-gid") {
            Some(LsOption::NumericIds)
        } else if is_short(arg, 'N') || is_long(arg, "literal") {
            Some(LsOption::Literal)
        } else if is_short(arg, 'o') {
            Some(LsOption::LongNoGroup)
        } else if is_short(arg, 'p') {
            Some(LsOption::Slash)
        } else if is_short(arg, 'q') || is_long(arg, "hide-control-chars") {
            Some(LsOption::HideControl)
        } else if is_long(arg, "show-control-chars") {
            Some(LsOption::ShowControl)
        } else if is_short(arg, 'Q') || is_long(arg, "quote-name") {
            Some(LsOption::QuoteName)
        } else if is_long(arg, "quoting-style") {
            Some(LsOption::Quoting)
        } else if is_short(arg, 'r') || is_long(arg, "reverse") {
            Some(LsOption::Reverse)
        } else if is_short(arg, 'R') || is_long(arg, "recursive") {
            Some(LsOption::Recursive)
        } else if is_short(arg, 's') || is_long(arg, "size") {
            Some(LsOption::AllocatedSize)
        } else if is_short(arg, 'S') {
            Some(LsOption::SortSize)
        } else if is_long(arg, "sort") {
            Some(LsOption::Sort)
        } else if is_short(arg, 'u') {
            Some(LsOption::AccessTime)
        } else if is_short(arg, 'U') {
            Some(LsOption::NoSortDirs)
        } else if is_short(arg, 'v') {
            Some(LsOption::VersionSort)
        } else if is_short(arg, 'X') {
            Some(LsOption::SortExtension)
        } else if is_long(arg, "zero") {
            Some(LsOption::Zero)
        } else if is_short(arg, '1') {
            Some(LsOption::OnePerLine)
        } else if is_short(arg, 'H') || is_long(arg, "dereference-command-line") || is_long(arg, "derefence-command-line-symlinks") || is_long(arg, "time") || is_long(arg, "time-style") || is_short(arg, 't') || is_short(arg, 'T') || is_long(arg, "tabsize") || is_short(arg, 'w') || is_long(arg, "width") || is_short(arg, 'x') || is_short(arg, 'Z') || is_long(arg, "context") {
            Some(LsOption::Ignored)
        } else {
            None
        }
    }

    pub open spec fn spec_takes_value(self) -> bool {
        match self {
            LsOption::BlockSize | LsOption::Color | LsOption::Classify | LsOption::FileType
            | LsOption::Format | LsOption::Hide | LsOption::Hyperlink | LsOption::Indicator
            | LsOption::Ignore | LsOption::Quoting | LsOption::Sort => true,
            _ => false,
        }
    }

    /// Whether the option reads a value (the next argument, or the text after `=`).
    pub fn takes_value(self) -> (r: bool)
        ensures
            r == self.spec_takes_value(),
    {
        match self {
            LsOption::BlockSize | LsOption::Color | LsOption::Classify | LsOption::FileType
            | LsOption::Format | LsOption::Hide | LsOption::Hyperlink | LsOption::Indicator
            | LsOption::Ignore | LsOption::Quoting | LsOption::Sort => true,
            _ => false,
        }
    }
}

/// Whether the option only turns one switch on or off.
pub open spec fn is_switch(opt: LsOption) -> bool {
    match opt {
        LsOption::All | LsOption::AlmostAll | LsOption::Author | LsOption::Escape | LsOption::IgnoreBackups | LsOption::CtimeKey | LsOption::Columns | LsOption::Directory | LsOption::Dired | LsOption::GroupDirsFirst | LsOption::NoGroup | LsOption::HumanReadable | LsOption::Si | LsOption::Inode | LsOption::Dereference | LsOption::Commas | LsOption::NumericIds | LsOption::Literal | LsOption::HideControl | LsOption::ShowControl | LsOption::QuoteName | LsOption::Reverse | LsOption::Recursive | LsOption::AllocatedSize | LsOption::Zero | LsOption::OnePerLine => true,
        _ => false,
    }
}

/// The switches after the switch option `opt` is applied to `f`.
pub open spec fn switch_of(f: LsFlags, opt: LsOption) -> LsFlags {
    match opt {
        LsOption::All => LsFlags { bits: f.bits | NOT_IGNORE_DOTS },
        LsOption::AlmostAll => LsFlags { bits: f.bits | IGNORE_DOTS_EXCEPT_DIRS },
        LsOption::Author => LsFlags { bits: f.bits | PRINT_AUTHOR },
        LsOption::Escape => LsFlags { bits: f.bits | C_STYLE_ESCAPED },
        LsOption::IgnoreBackups => LsFlags { bits: f.bits | IGNORE_TILDE_ENTRIES },
        LsOption::CtimeKey => LsFlags { bits: f.bits | LOWERCASE_C },
        LsOption::Columns => LsFlags { bits: f.bits | LIST_BY_COLUMNS },
        LsOption::Directory => LsFlags { bits: f.bits | LIST_DIRECTORIES },
        LsOption::Dired => LsFlags { bits: f.bits | EMACS_DIRED_MODE },
        LsOption::GroupDirsFirst => LsFlags { bits: f.bits | GROUP_DIRS_FIRST },
        LsOption::NoGroup => LsFlags { bits: f.bits | NO_GROUPS_LISTED },
        LsOption::HumanReadable => LsFlags { bits: f.bits | HUMAN_READABLE_SIZES },
        LsOption::Si => LsFlags { bits: f.bits | SI_SIZES },
        LsOption::Inode => LsFlags { bits: f.bits | PRINT_INODE_INDEXES },
        LsOption::Dereference => LsFlags { bits: f.bits | DEREF_SYMLINKS },
        LsOption::Commas => LsFlags { bits: f.bits | COMMA_SEP_LIST },
        LsOption::NumericIds => LsFlags { bits: f.bits | NUMERIC_IDS },
        LsOption::Literal => LsFlags { bits: f.bits | LITERAL_NAMES },
        LsOption::HideControl => LsFlags { bits: f.bits | HIDE_CONTROL_CHARS },
        LsOption::ShowControl => LsFlags { bits: f.bits & !HIDE_CONTROL_CHARS },
        LsOption::QuoteName => LsFlags { bits: f.bits | QUOTE_ENTRIES },
        LsOption::Reverse => LsFlags { bits: f.bits | REVERSE_SORT },
        LsOption::Recursive => LsFlags { bits: f.bits | RECURSIVE },
        LsOption::AllocatedSize => LsFlags { bits: f.bits | PRINT_ALLOCATED_SIZE },
        LsOption::Zero => LsFlags { bits: f.bits | END_WITH_NUL },
        LsOption::OnePerLine => LsFlags { bits: f.bits | ONE_FILE_PER_LINE },
        _ => f,
    }
}

impl LsFlags {
    /// Applies a switch option.
    pub fn apply_switch(&mut self, opt: LsOption)
        ensures
            *final(self) == switch_of(*old(self), opt),
    {
        match opt {
            LsOption::All => self.insert(NOT_IGNORE_DOTS),
            LsOption::AlmostAll => self.insert(IGNORE_DOTS_EXCEPT_DIRS),
            LsOption::Author => self.insert(PRINT_AUTHOR),
            LsOption::Escape => self.insert(C_STYLE_ESCAPED),
            LsOption::IgnoreBackups => self.insert(IGNORE_TILDE_ENTRIES),
            LsOption::CtimeKey => self.insert(LOWERCASE_C),
            LsOption::Columns => self.insert(LIST_BY_COLUMNS),
            LsOption::Directory => self.insert(LIST_DIRECTORIES),
            LsOption::Dired => self.insert(EMACS_DIRED_MODE),
            LsOption::GroupDirsFirst => self.insert(GROUP_DIRS_FIRST),
            LsOption::NoGroup => self.insert(NO_GROUPS_LISTED),
            LsOption::HumanReadable => self.insert(HUMAN_READABLE_SIZES),
            LsOption::Si => self.insert(SI_SIZES),
            LsOption::Inode => self.insert(PRINT_INODE_INDEXES),
            LsOption::Dereference => self.insert(DEREF_SYMLINKS),
            LsOption::Commas => self.insert(COMMA_SEP_LIST),
            LsOption::NumericIds => self.insert(NUMERIC_IDS),
            LsOption::Literal => self.insert(LITERAL_NAMES),
            LsOption::HideControl => self.insert(HIDE_CONTROL_CHARS),
            LsOption::ShowControl => self.remove(HIDE_CONTROL_CHARS),
            LsOption::QuoteName => self.insert(QUOTE_ENTRIES),
            LsOption::Reverse => self.insert(REVERSE_SORT),
            LsOption::Recursive => self.insert(RECURSIVE),
            LsOption::AllocatedSize => self.insert(PRINT_ALLOCATED_SIZE),
            LsOption::Zero => self.insert(END_WITH_NUL),
            LsOption::OnePerLine => self.insert(ONE_FILE_PER_LINE),
            _ => {},
        }
    }
}

/// The value handed to an option, as a byte sequence.
pub open spec fn value_view(value: Option<Vec<u8>>) -> Option<Seq<u8>> {
    match value {
        Some(v) => Some(v@),
        None => None,
    }
}

/// The configuration after option `opt` with `value` is applied to `c`, or why it is refused.
pub open spec fn option_effect(c: LsConfig, opt: LsOption, value: Option<Seq<u8>>) -> Result<LsConfig, ArgError> {
    if is_switch(opt) {
        Ok(LsConfig { flags: switch_of(c.flags, opt), ..c })
    } else {
        option_effect_other(c, opt, value)
    }
}

/// `option_effect` for the options that are not plain switches.
pub open spec fn option_effect_other(c: LsConfig, opt: LsOption, value: Option<Seq<u8>>) -> Result<LsConfig, ArgError> {
    match opt {
        LsOption::Color => match value {
            None => Err(ArgError::MissingValue),
            Some(b) => match when_of(b) {
                None => Err(ArgError::InvalidValue),
                Some(x) => Ok(LsConfig { color: x, ..c }),
            },
        },
        LsOption::Classify => match value {
            None => Err(ArgError::MissingValue),
            Some(b) => match when_of(b) {
                None => Err(ArgError::InvalidValue),
                Some(x) => Ok(LsConfig { classify_files: x, ..c }),
            },
        },
        LsOption::FileType => match value {
            None => Err(ArgError::MissingValue),
            Some(b) => match when_of(b) {
                None => Err(ArgError::InvalidValue),
                Some(x) => Ok(LsConfig { classify_files: x, ..c }),
            },
        },
        LsOption::Format => match value {
            None => Err(ArgError::MissingValue),
            Some(b) => match formatting_of(b) {
                None => Err(ArgError::InvalidValue),
                Some(x) => Ok(LsConfig { format: x, ..c }),
            },
        },
        LsOption::Hyperlink => match value {
            None => Err(ArgError::MissingValue),
            Some(b) => match when_of(b) {
                None => Err(ArgError::InvalidValue),
                Some(x) => Ok(LsConfig { hyperlink_file_names: x, ..c }),
            },
        },
        LsOption::Indicator => match value {
            None => Err(ArgError::MissingValue),
            Some(b) => match indicator_of(b) {
                None => Err(ArgError::InvalidValue),
                Some(x) => Ok(LsConfig { indicator: x, ..c }),
            },
        },
        LsOption::Quoting => match value {
            None => Err(ArgError::MissingValue),
            Some(b) => match quoting_of(b) {
                None => Err(ArgError::InvalidValue),
                Some(x) => Ok(LsConfig { quoting: x, ..c }),
            },
        },
        LsOption::Sort => match value {
            None => Err(ArgError::MissingValue),
            Some(b) => match sort_order_of(b) {
                None => Err(ArgError::InvalidValue),
                Some(x) => Ok(LsConfig { order: x, ..c }),
            },
        },
        LsOption::BlockSize => match value {
            None => Err(ArgError::MissingValue),
            Some(b) => match block_size_of(b) {
                Err(e) => Err(ArgError::BlockSize(e)),
                Ok(u) => Ok(LsConfig { size_unit: Some(u), ..c }),
            },
        },
        LsOption::NoSortAll => Ok(
            LsConfig {
                flags: LsFlags {
                    bits: (c.flags.bits & !SORT_ENTRIES) | (NOT_IGNORE_DOTS | DIRECTORIES_FIRST),
                },
                color: When::Never,
                order: SortOrder::Unsorted,
                ..c
            },
        ),
        LsOption::FullTime => Ok(
            LsConfig { format: Formatting::Long, time_ty: TimeStampType::FullIso, ..c },
        ),
        LsOption::NoOwner => Ok(
            LsConfig {
                flags: LsFlags { bits: c.flags.bits | NO_OWNER_LISTED },
                format: Formatting::Long,
                ..c
            },
        ),
        LsOption::LongNoGroup => Ok(
            LsConfig {
                flags: LsFlags { bits: c.flags.bits | NO_GROUPS_LISTED },
                format: Formatting::Long,
                ..c
            },
        ),
        LsOption::LongFormat => Ok(LsConfig { format: Formatting::Long, ..c }),
        LsOption::Slash => Ok(LsConfig { indicator: IndicatorStyle::Slash, ..c }),
        LsOption::SortSize => Ok(LsConfig { order: SortOrder::Size, ..c }),
        LsOption::SortExtension => Ok(LsConfig { order: SortOrder::Extension, ..c }),
        LsOption::VersionSort => Ok(
            LsConfig {
                flags: LsFlags { bits: c.flags.bits | SORT_BY_VERSION_NUMBER },
                order: SortOrder::Version,
                ..c
            },
        ),
        LsOption::NoSortDirs => Ok(
            LsConfig {
                flags: LsFlags { bits: c.flags.bits | DIRECTORIES_FIRST },
                order: SortOrder::Unsorted,
                ..c
            },
        ),
        LsOption::AccessTime => if c.format == Formatting::Long {
            if c.order == SortOrder::AccessTime {
                Ok(LsConfig { time_shown: ShownTime::Access, ..c })
            } else {
                Ok(LsConfig { time_shown: ShownTime::Access, order: SortOrder::Name, ..c })
            }
        } else {
            Ok(LsConfig { time_shown: ShownTime::Access, order: SortOrder::AccessTime, ..c })
        },
        LsOption::Hide | LsOption::Ignore => Err(ArgError::Unsupported),
        LsOption::Ignored => Ok(c),
        _ => Ok(c),
    }
}

/// The configuration after argument `arg` (with `value`, for an option that
/// takes one) is applied to `c`: an operand names the directory, a lone `-`
/// changes nothing, and an option that is not known is refused.
pub open spec fn argument_effect(c: LsConfig, arg: Arg, value: Option<Seq<u8>>) -> Result<LsConfig, ArgError> {
    match arg {
        Arg::Value(v) => Ok(LsConfig { dir: Some(v), ..c }),
        Arg::Stdio => Ok(c),
        _ => match option_of(arg) {
            Some(opt) => option_effect(c, opt, value),
            None => Err(ArgError::UnknownOption),
        },
    }
}

fn is_switch_exec(opt: LsOption) -> (r: bool)
    ensures
        r == is_switch(opt),
{
    match opt {
        LsOption::All | LsOption::AlmostAll | LsOption::Author | LsOption::Escape | LsOption::IgnoreBackups | LsOption::CtimeKey | LsOption::Columns | LsOption::Directory | LsOption::Dired | LsOption::GroupDirsFirst | LsOption::NoGroup | LsOption::HumanReadable | LsOption::Si | LsOption::Inode | LsOption::Dereference | LsOption::Commas | LsOption::NumericIds | LsOption::Literal | LsOption::HideControl | LsOption::ShowControl | LsOption::QuoteName | LsOption::Reverse | LsOption::Recursive | LsOption::AllocatedSize | LsOption::Zero | LsOption::OnePerLine => true,
        _ => false,
    }
}

impl LsConfig {
    /// Applies option `opt`, with `value` where it takes one.
    pub fn apply_option(&mut self, opt: LsOption, value: Option<Vec<u8>>) -> (r: Result<(), ArgError>)
        ensures
            match option_effect(*old(self), opt, value_view(value)) {
                Ok(c) => r is Ok && *final(self) == c,
                Err(e) => r == Err::<(), ArgError>(e) && *final(self) == *old(self),
            },
    {
        if is_switch_exec(opt) {
            self.flags.apply_switch(opt);
            Ok(())
        } else if opt.takes_value() {
            self.apply_valued(opt, value)
        } else {
            self.apply_fixed(opt, value)
        }
    }

    /// Applies an option that reads a value.
    fn apply_valued(&mut self, opt: LsOption, value: Option<Vec<u8>>) -> (r: Result<(), ArgError>)
        requires
            opt.spec_takes_value(),
        ensures
            match option_effect_other(*old(self), opt, value_view(value)) {
                Ok(c) => r is Ok && *final(self) == c,
                Err(e) => r == Err::<(), ArgError>(e) && *final(self) == *old(self),
            },
    {
        match opt {
            LsOption::Color => match value {
                None => return Err(needs_an_argument()),
                Some(b) => match When::from_bytes(b.as_slice()) {
                    None => return Err(invalid_argument()),
                    Some(x) => {
                        self.color = x;
                    },
                },
            },
            LsOption::Classify => match value {
                None => return Err(needs_an_argument()),
                Some(b) => match When::from_bytes(b.as_slice()) {
                    None => return Err(invalid_argument()),
                    Some(x) => {
                        self.classify_files = x;
                    },
                },
            },
            LsOption::FileType => match value {
                None => return Err(needs_an_argument()),
                Some(b) => match When::from_bytes(b.as_slice()) {
                    None => return Err(invalid_argument()),
                    Some(x) => {
                        self.classify_files = x;
                    },
                },
            },
            LsOption::Format => match value {
                None => return Err(needs_an_argument()),
                Some(b) => match Formatting::from_bytes(b.as_slice()) {
                    None => return Err(invalid_argument()),
                    Some(x) => {
                        self.format = x;
                    },
                },
            },
            LsOption::Hyperlink => match value {
                None => return Err(needs_an_argument()),
                Some(b) => match When::from_bytes(b.as_slice()) {
                    None => return Err(invalid_argument()),
                    Some(x) => {
                        self.hyperlink_file_names = x;
                    },
                },
            },
            LsOption::Indicator => match value {
                None => return Err(needs_an_argument()),
                Some(b) => match IndicatorStyle::from_bytes(b.as_slice()) {
                    None => return Err(invalid_argument()),
                    Some(x) => {
                        self.indicator = x;
                    },
                },
            },
            LsOption::Quoting => match value {
                None => return Err(needs_an_argument()),
                Some(b) => match QuotingStyle::from_bytes(b.as_slice()) {
                    None => return Err(invalid_argument()),
                    Some(x) => {
                        self.quoting = x;
                    },
                },
            },
            LsOption::Sort => match value {
                None => return Err(needs_an_argument()),
                Some(b) => match SortOrder::from_bytes(b.as_slice()) {
                    None => return Err(invalid_argument()),
                    Some(x) => {
                        self.order = x;
                    },
                },
            },
            LsOption::BlockSize => match value {
                None => return Err(needs_an_argument()),
                Some(b) => match size_arg_to_multiplier(b.as_slice()) {
                    Err(e) => return Err(ArgError::BlockSize(e)),
                    Ok(u) => {
                        self.size_unit = Some(u);
                    },
                },
            },
            LsOption::Hide | LsOption::Ignore => return Err(ArgError::Unsupported),
            _ => {},
        }
        Ok(())
    }

    /// Applies an option that is neither a switch nor reads a value.
    fn apply_fixed(&mut self, opt: LsOption, value: Option<Vec<u8>>) -> (r: Result<(), ArgError>)
        requires
            !opt.spec_takes_value(),
            !is_switch(opt),
        ensures
            match option_effect_other(*old(self), opt, value_view(value)) {
                Ok(c) => r is Ok && *final(self) == c,
                Err(e) => r == Err::<(), ArgError>(e) && *final(self) == *old(self),
            },
    {
        match opt {
            LsOption::NoSortAll => {
                self.flags.remove(SORT_ENTRIES);
                self.flags.insert(NOT_IGNORE_DOTS | DIRECTORIES_FIRST);
                self.color = When::Never;
                self.order = SortOrder::Unsorted;
            },
            LsOption::FullTime => {
                self.format = Formatting::Long;
                self.time_ty = TimeStampType::FullIso;
            },
            LsOption::NoOwner => {
                self.flags.insert(NO_OWNER_LISTED);
                self.format = Formatting::Long;
            },
            LsOption::LongNoGroup => {
                self.flags.insert(NO_GROUPS_LISTED);
                self.format = Formatting::Long;
            },
            LsOption::LongFormat => {
                self.format = Formatting::Long;
            },
            LsOption::Slash => {
                self.indicator = IndicatorStyle::Slash;
            },
            LsOption::SortSize => {
                self.order = SortOrder::Size;
            },
            LsOption::SortExtension => {
                self.order = SortOrder::Extension;
            },
            LsOption::VersionSort => {
                self.flags.insert(SORT_BY_VERSION_NUMBER);
                self.order = SortOrder::Version;
            },
            LsOption::NoSortDirs => {
                self.flags.insert(DIRECTORIES_FIRST);
                self.order = SortOrder::Unsorted;
            },
            LsOption::AccessTime => {
                self.time_shown = ShownTime::Access;
                if self.format == Formatting::Long {
                    if self.order != SortOrder::AccessTime {
                        self.order = SortOrder::Name;
                    }
                } else {
                    self.order = SortOrder::AccessTime;
                }
            },
            _ => {},
        }
        Ok(())
    }

    /// Applies one command-line argument; `value` is what the tokenizer read
    /// for an option that takes one (see `LsOption::takes_value`).
    pub fn apply_argument(&mut self, arg: Arg, value: Option<Vec<u8>>) -> (r: Result<(), ArgError>)
        ensures
            match argument_effect(*old(self), arg, value_view(value)) {
                Ok(c) => r is Ok && *final(self) == c,
                Err(e) => r == Err::<(), ArgError>(e) && *final(self) == *old(self),
            },
    {
        let opt = LsOption::recognize(&arg);
        match arg {
            Arg::Value(v) => {
                self.dir = Some(v);
                Ok(())
            },
            Arg::Stdio => Ok(()),
            _ => match opt {
                Some(o) => self.apply_option(o, value),
                None => Err(ArgError::UnknownOption),
            },
        }
    }
}

} // verus!
