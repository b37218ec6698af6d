//! Classification of filesystem entries, observed without following links,
//! into the two supported kinds or a described unsupported kind.

use vstd::prelude::*;
use crate::text::{push_hex, push_str, spec_hex};

verus! {

/// The entry kinds a guide can list.
#[derive(Clone, Copy, Debug, PartialEq, Eq, Structural)]
pub enum SupportedEntryKind {
    RegularFile,
    Directory,
}

/// Entry kinds that are rejected rather than listed or followed.
#[derive(Clone, Copy, Debug, PartialEq, Eq, Structural)]
pub enum UnsupportedEntryKind {
    SymbolicLink,
    Fifo,
    UnixDomainSocket,
    CharacterDevice,
    BlockDevice,
    WindowsReparsePoint { tag: Option<u32> },
    Unknown,
}

/// What the non-following metadata of an entry reports.
#[derive(Clone, Copy, Debug, Default, PartialEq, Eq)]
pub struct EntryTypeObservation {
    pub is_regular_file: bool,
    pub is_directory: bool,
    pub is_symbolic_link: bool,
    pub is_fifo: bool,
    pub is_unix_domain_socket: bool,
    pub is_character_device: bool,
    pub is_block_device: bool,
    pub is_windows_reparse_point: bool,
    pub windows_reparse_tag: Option<u32>,
}

/// The kind of an entry: reparse points first, then links and special
/// files, and a regular file or directory only when exactly one holds.
pub open spec fn spec_classify(o: EntryTypeObservation) -> Result<SupportedEntryKind, UnsupportedEntryKind> {
    if o.is_windows_reparse_point || o.windows_reparse_tag is Some {
        Err(UnsupportedEntryKind::WindowsReparsePoint { tag: o.windows_reparse_tag })
    } else if o.is_symbolic_link {
        Err(UnsupportedEntryKind::SymbolicLink)
    } else if o.is_fifo {
        Err(UnsupportedEntryKind::Fifo)
    } else if o.is_unix_domain_socket {
        Err(UnsupportedEntryKind::UnixDomainSocket)
    } else if o.is_character_device {
        Err(UnsupportedEntryKind::CharacterDevice)
    } else if o.is_block_device {
        Err(UnsupportedEntryKind::BlockDevice)
    } else if o.is_regular_file && !o.is_directory {
        Ok(SupportedEntryKind::RegularFile)
    } else if !o.is_regular_file && o.is_directory {
        Ok(SupportedEntryKind::Directory)
    } else {
        Err(UnsupportedEntryKind::Unknown)
    }
}

pub fn classify_observation(observation: EntryTypeObservation) -> (r: Result<
    SupportedEntryKind,
    UnsupportedEntryKind,
>)
    ensures
        r == spec_classify(observation),
{
    if observation.is_windows_reparse_point || observation.windows_reparse_tag.is_some() {
        return Err(UnsupportedEntryKind::WindowsReparsePoint { tag: observation.windows_reparse_tag });
    }
    if observation.is_symbolic_link {
        return Err(UnsupportedEntryKind::SymbolicLink);
    }
    if observation.is_fifo {
        return Err(UnsupportedEntryKind::Fifo);
    }
    if observation.is_unix_domain_socket {
        return Err(UnsupportedEntryKind::UnixDomainSocket);
    }
    if observation.is_character_device {
        return Err(UnsupportedEntryKind::CharacterDevice);
    }
    if observation.is_block_device {
        return Err(UnsupportedEntryKind::BlockDevice);
    }
    if observation.is_regular_file && !observation.is_directory {
        Ok(SupportedEntryKind::RegularFile)
    } else if !observation.is_regular_file && observation.is_directory {
        Ok(SupportedEntryKind::Directory)
    } else {
        Err(UnsupportedEntryKind::Unknown)
    }
}

impl UnsupportedEntryKind {
    /// The description of the kind used in diagnostics.
    pub open spec fn spec_description(self) -> Seq<char> {
        match self {
            UnsupportedEntryKind::SymbolicLink => "symbolic link"@,
            UnsupportedEntryKind::Fifo => "FIFO"@,
            UnsupportedEntryKind::UnixDomainSocket => "Unix-domain socket"@,
            UnsupportedEntryKind::CharacterDevice => "character device"@,
            UnsupportedEntryKind::BlockDevice => "block device"@,
            UnsupportedEntryKind::WindowsReparsePoint { tag: Some(t) } => "Windows reparse point (tag 0x"@
                + spec_hex(t as nat, 8) + ")"@,
            UnsupportedEntryKind::WindowsReparsePoint { tag: None } => "Windows reparse point"@,
            UnsupportedEntryKind::Unknown => "unknown filesystem entry type"@,
        }
    }

    pub fn description(&self) -> (s: String)
        ensures
            s@ == self.spec_description(),
    {
        let mut s = String::new();
        match self {
            UnsupportedEntryKind::SymbolicLink => push_str(&mut s, "symbolic link"),
            UnsupportedEntryKind::Fifo => push_str(&mut s, "FIFO"),
            UnsupportedEntryKind::UnixDomainSocket => push_str(&mut s, "Unix-domain socket"),
            UnsupportedEntryKind::CharacterDevice => push_str(&mut s, "character device"),
            UnsupportedEntryKind::BlockDevice => push_str(&mut s, "block device"),
            UnsupportedEntryKind::WindowsReparsePoint { tag: Some(t) } => {
                push_str(&mut s, "Windows reparse point (tag 0x");
                push_hex(&mut s, *t, 8);
                push_str(&mut s, ")");
            },
            UnsupportedEntryKind::WindowsReparsePoint { tag: None } => push_str(&mut s, "Windows reparse point"),
            UnsupportedEntryKind::Unknown => push_str(&mut s, "unknown filesystem entry type"),
        }
        s
    }
}

} // verus!
