//! Directory entries, the selection of the entries to show, and the
//! decoding of file type and permission bits.
use crate::bytes::lit;
use crate::settings::{LsConfig, LsFlags, IGNORE_DOTS_EXCEPT_DIRS, LIST_DIRECTORIES, NOT_IGNORE_DOTS};
use vstd::prelude::*;

verus! {

/// The file-type field of a mode.
pub const TYPE_MASK: u16 = 0o170000;

pub const SOCKET: u16 = 0o140000;

pub const SYMBOLIC_LINK: u16 = 0o120000;

pub const REGULAR_FILE: u16 = 0o100000;

pub const BLOCK_DEVICE: u16 = 0o060000;

pub const DIRECTORY: u16 = 0o040000;

pub const CHAR_DEVICE: u16 = 0o020000;

pub const FIFO_NAMED_PIPE: u16 = 0o010000;

/// The metadata of one file that a listing uses; times are whole seconds
/// since the epoch.
#[derive(Clone, Copy, Debug, PartialEq, Eq, Structural)]
pub struct Stat {
    pub mode: u16,
    pub nlink: u64,
    pub uid: u32,
    pub gid: u32,
    pub size: u64,
    pub atime: i64,
    pub mtime: i64,
    pub ctime: i64,
}

/// One entry to be listed: its raw name, its metadata when the listing
/// needs it, and the owner and group names once they are resolved.
#[derive(Debug)]
pub struct LsDisplay {
    pub file_name: Vec<u8>,
    pub stat: Option<Stat>,
    pub owner_name: Option<Vec<u8>>,
    pub group_name: Option<Vec<u8>>,
}

impl LsDisplay {
    /// An entry with the given name and metadata and no resolved names.
    pub fn new(file_name: Vec<u8>, stat: Option<Stat>) -> (r: LsDisplay)
        ensures
            r.file_name@ == file_name@,
            r.stat == stat,
            r.owner_name is None,
            r.group_name is None,
    {
        LsDisplay { file_name, stat, owner_name: None, group_name: None }
    }

    /// The metadata, if fetched.
    pub fn stat(&self) -> (r: Option<Stat>)
        ensures
            r == self.stat,
    {
        self.stat
    }

    /// The raw name.
    pub fn file_name(&self) -> (r: &[u8])
        ensures
            r@ == self.file_name@,
    {
        self.file_name.as_slice()
    }
}

/// Dotfiles are shown: `-a` or `-A`.
pub open spec fn shows_dotfiles(f: LsFlags) -> bool {
    f.has(NOT_IGNORE_DOTS) || f.has(IGNORE_DOTS_EXCEPT_DIRS)
}

/// `-A` without `-a`: dotfiles are shown, but not `.` and `..`.
pub open spec fn almost_all(f: LsFlags) -> bool {
    f.has(IGNORE_DOTS_EXCEPT_DIRS) && !f.has(NOT_IGNORE_DOTS)
}

pub open spec fn is_dotfile(name: Seq<u8>) -> bool {
    name.len() > 0 && name[0] == 46
}

pub open spec fn is_dot_or_dotdot(name: Seq<u8>) -> bool {
    name == lit(".") || name == lit("..")
}

/// The entry named `name` is left out of the listing.
pub open spec fn skipped(f: LsFlags, name: Seq<u8>) -> bool {
    (!shows_dotfiles(f) && is_dotfile(name)) || (almost_all(f) && is_dot_or_dotdot(name))
}

/// The names that the listing keeps, in their order.
pub open spec fn kept(f: LsFlags, names: Seq<Seq<u8>>) -> Seq<Seq<u8>>
    decreases names.len(),
{
    if names.len() == 0 {
        Seq::empty()
    } else if skipped(f, names.last()) {
        kept(f, names.drop_last())
    } else {
        kept(f, names.drop_last()).push(names.last())
    }
}

/// Whether the entry named `file_name` is left out under `cfg`.
pub fn skip(cfg: &LsConfig, file_name: &[u8]) -> (r: bool)
    ensures
        r == skipped(cfg.flags, file_name@),
{
    let show_dots = cfg.flags.contains(NOT_IGNORE_DOTS) || cfg.flags.contains(
        IGNORE_DOTS_EXCEPT_DIRS,
    );
    let almost = cfg.flags.contains(IGNORE_DOTS_EXCEPT_DIRS) && !cfg.flags.contains(
        NOT_IGNORE_DOTS,
    );
    let dotfile = file_name.len() > 0 && file_name[0] == 46;
    let dots = crate::bytes::bytes_is(file_name, ".") || crate::bytes::bytes_is(file_name, "..");
    (!show_dots && dotfile) || (almost && dots)
}

/// The names of `names` that the listing shows under `cfg`, in their order.
pub fn select_names(cfg: &LsConfig, names: Vec<Vec<u8>>) -> (r: Vec<Vec<u8>>)
    ensures
        r@.map_values(|n: Vec<u8>| n@) == kept(cfg.flags, names@.map_values(|n: Vec<u8>| n@)),
{
    let ghost all = names@.map_values(|n: Vec<u8>| n@);
    let ghost total = names@.len();
    let len = names.len();
    assert(total == len);
    let mut out: Vec<Vec<u8>> = Vec::new();
    let mut rest = names;
    crate::bytes::reverse_vec(&mut rest);
    let mut i: usize = 0;
    while rest.len() > 0
        invariant
            total == all.len(),
            total <= usize::MAX,
            i + rest@.len() == total,
            forall|k: int| 0 <= k < rest@.len() ==> (#[trigger] rest@[k])@ == all[total - 1 - k],
            out@.map_values(|n: Vec<u8>| n@) == kept(cfg.flags, all.subrange(0, i as int)),
        decreases rest@.len(),
    {
        let name = rest.pop().unwrap();
        assert(name@ == all[i as int]);
        assert(all.subrange(0, i + 1).drop_last() == all.subrange(0, i as int));
        if !skip(cfg, name.as_slice()) {
            out.push(name);
            assert(out@.map_values(|n: Vec<u8>| n@) == kept(cfg.flags, all.subrange(0, i as int)).push(
                all[i as int],
            ));
        }
        i = i + 1;
    }
    assert(all.subrange(0, total as int) == all);
    out
}

/// The names a listing shows: under `-d` the directory itself, else the
/// names of its entries that `cfg` keeps.
pub open spec fn listed(cfg: LsConfig, names: Seq<Seq<u8>>) -> Seq<Seq<u8>> {
    if cfg.flags.has(LIST_DIRECTORIES) {
        seq![cfg.spec_directory()]
    } else {
        kept(cfg.flags, names)
    }
}

/// The names to list, given the names of the directory's entries (which
/// are not read under `-d`).
pub fn listed_names(cfg: &LsConfig, names: Vec<Vec<u8>>) -> (r: Vec<Vec<u8>>)
    ensures
        r@.map_values(|n: Vec<u8>| n@) == listed(*cfg, names@.map_values(|n: Vec<u8>| n@)),
{
    if cfg.flags.contains(LIST_DIRECTORIES) {
        let mut dir: Vec<u8> = Vec::new();
        crate::bytes::push_all(&mut dir, cfg.directory());
        let mut out: Vec<Vec<u8>> = Vec::new();
        out.push(dir);
        assert(out@.map_values(|n: Vec<u8>| n@) =~= seq![cfg.spec_directory()]);
        out
    } else {
        select_names(cfg, names)
    }
}

/// The type letter of a mode: `-`, `d`, `l`, `b`, `c`, `p`, `s`, or `?`
/// for an unknown type.
pub open spec fn type_char(mode: u16) -> u8 {
    let t = mode & TYPE_MASK;
    if t == SOCKET {
        115
    } else if t == SYMBOLIC_LINK {
        108
    } else if t == REGULAR_FILE {
        45
    } else if t == BLOCK_DEVICE {
        98
    } else if t == DIRECTORY {
        100
    } else if t == CHAR_DEVICE {
        99
    } else if t == FIFO_NAMED_PIPE {
        112
    } else {
        63
    }
}

/// `r`, `w`, `x` for the set bits of a permission triad, `-` for the others.
pub open spec fn triad(mode: u16, read: u16, write: u16, exec: u16) -> Seq<u8> {
    seq![
        if mode & read != 0 { 114u8 } else { 45u8 },
        if mode & write != 0 { 119u8 } else { 45u8 },
        if mode & exec != 0 { 120u8 } else { 45u8 },
    ]
}

/// The ten-letter type and permission column of a mode.
pub open spec fn mode_string(mode: u16) -> Seq<u8> {
    seq![type_char(mode)] + triad(mode, 0o400, 0o200, 0o100) + triad(mode, 0o040, 0o020, 0o010)
        + triad(mode, 0o004, 0o002, 0o001)
}

/// The type letter of `mode`.
pub fn print_filetype(mode: u16) -> (r: u8)
    ensures
        r == type_char(mode),
{
    let t = mode & TYPE_MASK;
    if t == SOCKET {
        115
    } else if t == SYMBOLIC_LINK {
        108
    } else if t == REGULAR_FILE {
        45
    } else if t == BLOCK_DEVICE {
        98
    } else if t == DIRECTORY {
        100
    } else if t == CHAR_DEVICE {
        99
    } else if t == FIFO_NAMED_PIPE {
        112
    } else {
        63
    }
}

/// The permission bits of a mode.
#[derive(Clone, Copy, Debug, PartialEq, Eq, Structural)]
pub struct Permissions(pub u16);

impl Permissions {
    pub const OWNER_READ: u16 = 0o0400;

    pub const OWNER_WRITE: u16 = 0o0200;

    pub const OWNER_EXEC: u16 = 0o0100;

    pub const GROUP_READ: u16 = 0o0040;

    pub const GROUP_WRITE: u16 = 0o0020;

    pub const GROUP_EXEC: u16 = 0o0010;

    pub const OTHERS_READ: u16 = 0o0004;

    pub const OTHERS_WRITE: u16 = 0o0002;

    pub const OTHERS_EXEC: u16 = 0o0001;

    /// The permission bits (and the set-id and sticky bits) of `stat`.
    pub fn new(stat: &Stat) -> (r: Permissions)
        ensures
            r.0 == stat.mode & 0o7777,
    {
        Permissions(stat.mode & 0o7777)
    }

    fn triad(&self, read: u16, write: u16, exec: u16) -> (r: [u8; 3])
        ensures
            r@ == triad(self.0, read, write, exec),
    {
        let r: u8 = if self.0 & read != 0 {
            114
        } else {
            45
        };
        let w: u8 = if self.0 & write != 0 {
            119
        } else {
            45
        };
        let x: u8 = if self.0 & exec != 0 {
            120
        } else {
            45
        };
        let out = [r, w, x];
        assert(out@ == seq![r, w, x]);
        out
    }

    /// `rwx`-style rendering of the owner's permissions.
    pub fn owner(&self) -> (r: [u8; 3])
        ensures
            r@ == triad(self.0, 0o400, 0o200, 0o100),
    {
        self.triad(Self::OWNER_READ, Self::OWNER_WRITE, Self::OWNER_EXEC)
    }

    /// `rwx`-style rendering of the group's permissions.
    pub fn group(&self) -> (r: [u8; 3])
        ensures
            r@ == triad(self.0, 0o040, 0o020, 0o010),
    {
        self.triad(Self::GROUP_READ, Self::GROUP_WRITE, Self::GROUP_EXEC)
    }

    /// `rwx`-style rendering of everyone else's permissions.
    pub fn others(&self) -> (r: [u8; 3])
        ensures
            r@ == triad(self.0, 0o004, 0o002, 0o001),
    {
        self.triad(Self::OTHERS_READ, Self::OTHERS_WRITE, Self::OTHERS_EXEC)
    }
}

proof fn lemma_mask_keeps_permission_bits(mode: u16)
    ensures
        (mode & 0o7777) & 0o400 == mode & 0o400,
        (mode & 0o7777) & 0o200 == mode & 0o200,
        (mode & 0o7777) & 0o100 == mode & 0o100,
        (mode & 0o7777) & 0o040 == mode & 0o040,
        (mode & 0o7777) & 0o020 == mode & 0o020,
        (mode & 0o7777) & 0o010 == mode & 0o010,
        (mode & 0o7777) & 0o004 == mode & 0o004,
        (mode & 0o7777) & 0o002 == mode & 0o002,
        (mode & 0o7777) & 0o001 == mode & 0o001,
{
    assert((mode & 0o7777) & 0o400 == mode & 0o400 && (mode & 0o7777) & 0o200 == mode & 0o200 && (mode & 0o7777) & 0o100 == mode & 0o100 && (mode & 0o7777) & 0o040 == mode & 0o040 && (mode & 0o7777) & 0o020 == mode & 0o020 && (mode & 0o7777) & 0o010 == mode & 0o010 && (mode & 0o7777) & 0o004 == mode & 0o004 && (mode & 0o7777) & 0o002 == mode & 0o002 && (mode & 0o7777) & 0o001 == mode & 0o001) by (bit_vector);
}

/// Appends the ten-letter type and permission column of `mode`.
pub fn push_mode_string(out: &mut Vec<u8>, mode: u16)
    ensures
        final(out)@ == old(out)@ + mode_string(mode),
        mode_string(mode).len() == 10,
{
    out.push(print_filetype(mode));
    let perms = Permissions(mode & 0o7777);
    proof {
        lemma_mask_keeps_permission_bits(mode);
    }
    let o = perms.owner();
    let g = perms.group();
    let x = perms.others();
    crate::bytes::push_all(out, &o);
    crate::bytes::push_all(out, &g);
    crate::bytes::push_all(out, &x);
    assert(final(out)@ == old(out)@ + mode_string(mode));
}

/// A name is kept exactly when it is among the names and not skipped.
pub proof fn lemma_kept_members(f: LsFlags, names: Seq<Seq<u8>>)
    ensures
        forall|x: Seq<u8>| #[trigger]
            kept(f, names).contains(x) <==> (names.contains(x) && !skipped(f, x)),
    decreases names.len(),
{
    if names.len() > 0 {
        let init = names.drop_last();
        let last = names.last();
        lemma_kept_members(f, init);
        assert(names == init.push(last));
        assert forall|x: Seq<u8>| #[trigger] names.contains(x) <==> (init.contains(x) || x == last) by {
            if names.contains(x) {
                let k = choose|k: int| 0 <= k < names.len() && names[k] == x;
                if k < init.len() {
                    assert(init[k] == x);
                }
            }
            if init.contains(x) {
                let k = choose|k: int| 0 <= k < init.len() && init[k] == x;
                assert(names[k] == x);
            }
            if x == last {
                assert(names[names.len() - 1] == x);
            }
        }
        if !skipped(f, last) {
            let ki = kept(f, init);
            assert(kept(f, names) == ki.push(last));
            assert forall|x: Seq<u8>| #[trigger] kept(f, names).contains(x) <==> (ki.contains(x)
                || x == last) by {
                if kept(f, names).contains(x) {
                    let k = choose|k: int| 0 <= k < kept(f, names).len() && kept(f, names)[k] == x;
                    if k < ki.len() {
                        assert(ki[k] == x);
                    }
                }
                if ki.contains(x) {
                    let k = choose|k: int| 0 <= k < ki.len() && ki[k] == x;
                    assert(kept(f, names)[k] == x);
                }
                if x == last {
                    assert(kept(f, names)[ki.len() as int] == x);
                }
            }
        }
    }
}

/// Which names a listing keeps: without `-a` or `-A` no name starting with
/// `.` is kept; with `-a` every name is kept, `.` and `..` included; with
/// `-A` alone every name starting with `.` is kept except `.` and `..`.
pub proof fn lemma_dotfile_visibility(f: LsFlags, names: Seq<Seq<u8>>)
    ensures
        !shows_dotfiles(f) ==> forall|x: Seq<u8>| #[trigger]
            kept(f, names).contains(x) ==> !is_dotfile(x),
        f.has(NOT_IGNORE_DOTS) ==> forall|x: Seq<u8>| #[trigger]
            names.contains(x) ==> kept(f, names).contains(x),
        almost_all(f) ==> forall|x: Seq<u8>| #[trigger]
            kept(f, names).contains(x) ==> !is_dot_or_dotdot(x),
        almost_all(f) ==> forall|x: Seq<u8>| #[trigger]
            names.contains(x) && !is_dot_or_dotdot(x) ==> kept(f, names).contains(x),
{
    lemma_kept_members(f, names);
}

/// The type and permission column is ten bytes wide whatever the mode bits.
pub proof fn lemma_mode_string_len(mode: u16)
    ensures
        mode_string(mode).len() == 10,
{
}

} // verus!
