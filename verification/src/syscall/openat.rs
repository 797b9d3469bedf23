//! The open-flags word handed to the kernel's openat call, and the mode
//! argument the open shim computes from it.

use vstd::prelude::*;

verus! {

pub const O_RDONLY: u32 = 0;

pub const O_WRONLY: u32 = 1;

pub const O_RDWR: u32 = 2;

pub const O_CREAT: u32 = 64;

pub const O_EXCL: u32 = 128;

pub const O_NOCTTY: u32 = 256;

pub const O_TRUNC: u32 = 512;

pub const O_APPEND: u32 = 1024;

pub const O_NONBLOCK: u32 = 2048;

pub const O_DSYNC: u32 = 4096;

pub const O_DIRECTORY: u32 = 65536;

pub const O_NOFOLLOW: u32 = 131072;

pub const O_CLOEXEC: u32 = 524288;

pub const O_TMPFILE: u32 = 4194304 | O_DIRECTORY;

/// The file-type bits masked out of the mode argument.
pub const S_IFMT: u32 = 1111 << 12;

/// The two low bits of the flags word: how the file is to be accessed.
#[derive(Clone, Copy, Debug, PartialEq, Eq, Structural)]
pub enum AccessMode {
    ReadOnly,
    WriteOnly,
    ReadAndWrite,
}

/// The access mode encoded by a two-bit field; the fourth bit pattern
/// encodes none.
pub open spec fn spec_access_mode(bits: u32) -> Option<AccessMode> {
    if bits == 0 {
        Some(AccessMode::ReadOnly)
    } else if bits == 1 {
        Some(AccessMode::WriteOnly)
    } else if bits == 2 {
        Some(AccessMode::ReadAndWrite)
    } else {
        None
    }
}

impl AccessMode {
    /// The two-bit encoding of this mode.
    pub fn bits(self) -> (r: u32)
        ensures
            spec_access_mode(r) == Some(self),
    {
        match self {
            AccessMode::ReadOnly => 0,
            AccessMode::WriteOnly => 1,
            AccessMode::ReadAndWrite => 2,
        }
    }
}

/// The flags word of an open call, read field by field.
#[derive(Clone, Copy, Debug, PartialEq, Eq, Structural)]
pub struct OFlags(pub u32);

impl OFlags {
    pub open spec fn spec_create(self) -> bool {
        self.0 & 0x80 != 0
    }

    pub open spec fn spec_require_create(self) -> bool {
        self.0 & 0x100 != 0
    }

    pub open spec fn spec_do_not_make_controlling_terminal(self) -> bool {
        self.0 & 0x200 != 0
    }

    pub open spec fn spec_do_not_follow_symbolic_link(self) -> bool {
        self.0 & 0x40000 != 0
    }

    pub open spec fn spec_create_unnamed_temporary_file(self) -> bool {
        self.0 & 0x400000 != 0
    }

    /// The whole flags word, as the kernel call takes it.
    pub fn raw_value(&self) -> (r: u32)
        ensures
            r == self.0,
    {
        self.0
    }

    /// The access mode held in the two low bits.
    pub fn access_mode(&self) -> (r: Option<AccessMode>)
        ensures
            r == spec_access_mode(self.0 & 3),
    {
        let word = self.0;
        let bits = word & 3;
        proof {
            assert(word & 3 < 4) by (bit_vector);
        }
        if bits == 0 {
            Some(AccessMode::ReadOnly)
        } else if bits == 1 {
            Some(AccessMode::WriteOnly)
        } else if bits == 2 {
            Some(AccessMode::ReadAndWrite)
        } else {
            None
        }
    }

    pub fn create(&self) -> (r: bool)
        ensures
            r == self.spec_create(),
    {
        self.0 & 0x80 != 0
    }

    pub fn require_create(&self) -> (r: bool)
        ensures
            r == self.spec_require_create(),
    {
        self.0 & 0x100 != 0
    }

    pub fn do_not_make_controlling_terminal(&self) -> (r: bool)
        ensures
            r == self.spec_do_not_make_controlling_terminal(),
    {
        self.0 & 0x200 != 0
    }

    pub fn do_not_follow_symbolic_link(&self) -> (r: bool)
        ensures
            r == self.spec_do_not_follow_symbolic_link(),
    {
        self.0 & 0x40000 != 0
    }

    pub fn create_unnamed_temporary_file(&self) -> (r: bool)
        ensures
            r == self.spec_create_unnamed_temporary_file(),
    {
        self.0 & 0x400000 != 0
    }
}

/// The mode word the open shim hands the kernel: the caller's mode
/// argument with the file-type bits cleared when the flags create a file,
/// zero otherwise.
pub fn open_mode_argument(flags: OFlags, mode_argument: u32) -> (r: u32)
    ensures
        r == if flags.spec_create() || flags.spec_create_unnamed_temporary_file() {
            mode_argument & !S_IFMT
        } else {
            0u32
        },
{
    if flags.create() || flags.create_unnamed_temporary_file() {
        mode_argument & !S_IFMT
    } else {
        0
    }
}

} // verus!
