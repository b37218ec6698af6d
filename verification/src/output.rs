//! Rules of exclusive file output for `init` and `dump --output`: which
//! destination spellings are accepted, how an existing destination is
//! described, and what a parent directory's permission bits allow.

use vstd::prelude::*;

verus! {

/// The last component of a path spelled with `/` separators.
pub open spec fn final_component(p: Seq<u8>) -> Seq<u8>
    decreases p.len(),
{
    if p.len() == 0 {
        p
    } else if p.last() == 0x2fu8 {
        Seq::<u8>::empty()
    } else {
        final_component(p.drop_last()).push(p.last())
    }
}

/// Why an output path spelling is refused, if it is.
pub open spec fn output_spelling_error(p: Seq<u8>) -> Option<Seq<char>> {
    if p.len() == 0 {
        Some("the path is empty"@)
    } else if p.last() == 0x2fu8 {
        Some("the path ends with a directory separator"@)
    } else if final_component(p) == seq![0x2eu8] || final_component(p) == seq![0x2eu8, 0x2eu8] {
        Some("the path must end in an ordinary file name"@)
    } else {
        None
    }
}

proof fn lemma_final_component_from(p: Seq<u8>, k: int)
    requires
        0 <= k <= p.len(),
        forall|j: int| k <= j < p.len() ==> p[j] != 0x2fu8,
        k == 0 || p[k - 1] == 0x2fu8,
    ensures
        final_component(p) == p.subrange(k, p.len() as int),
    decreases p.len(),
{
    if p.len() > k {
        lemma_final_component_from(p.drop_last(), k);
        assert(p.drop_last().subrange(k, p.len() - 1).push(p.last()) =~= p.subrange(k, p.len() as int));
    } else if p.len() > 0 {
        assert(p.subrange(k, p.len() as int) =~= Seq::<u8>::empty());
    }
}

/// Accepts an output path spelling that names an ordinary file: not empty,
/// not ending in `/`, and not ending in `.` or `..`. The error is the reason.
pub fn validate_output_spelling(path: &[u8]) -> (r: Result<(), String>)
    ensures
        match r {
            Ok(()) => output_spelling_error(path@) is None,
            Err(reason) => output_spelling_error(path@) == Some(reason@),
        },
{
    let n = path.len();
    if n == 0 {
        return Err("the path is empty".to_owned());
    }
    if path[n - 1] == 0x2f {
        return Err("the path ends with a directory separator".to_owned());
    }
    let mut k: usize = n;
    while k > 0 && path[k - 1] != 0x2f
        invariant
            k <= n == path@.len(),
            forall|j: int| k <= j < n ==> path@[j] != 0x2fu8,
        decreases k,
    {
        k = k - 1;
    }
    proof {
        lemma_final_component_from(path@, k as int);
    }
    let len = n - k;
    let dots = (len == 1 && path[k] == 0x2e) || (len == 2 && path[k] == 0x2e && path[k + 1] == 0x2e);
    proof {
        let f = path@.subrange(k as int, n as int);
        assert(f.len() == len);
        if f == seq![0x2eu8] {
            assert(f[0] == path@[k as int]);
            assert(dots);
        }
        if f == seq![0x2eu8, 0x2eu8] {
            assert(f[0] == path@[k as int]);
            assert(f[1] == path@[k + 1]);
            assert(dots);
        }
        if dots {
            if len == 1 {
                assert(f =~= seq![0x2eu8]);
            } else {
                assert(f =~= seq![0x2eu8, 0x2eu8]);
            }
        }
    }
    if dots {
        return Err("the path must end in an ordinary file name".to_owned());
    }
    Ok(())
}

/// What already occupies an output destination.
#[derive(Clone, Copy, Debug, PartialEq, Eq, Structural)]
pub enum ExistingKind {
    RegularFile,
    Directory,
    SpecialEntry,
    UnknownEntry,
}

impl ExistingKind {
    pub open spec fn spec_description(self) -> Seq<char> {
        match self {
            ExistingKind::RegularFile => "a regular file"@,
            ExistingKind::Directory => "a directory"@,
            ExistingKind::SpecialEntry => "a special filesystem entry"@,
            ExistingKind::UnknownEntry => "an existing filesystem entry"@,
        }
    }

    /// How the occupant is named in a diagnostic.
    pub fn description(&self) -> (s: &'static str)
        ensures
            s@ == self.spec_description(),
    {
        match self {
            ExistingKind::RegularFile => "a regular file",
            ExistingKind::Directory => "a directory",
            ExistingKind::SpecialEntry => "a special filesystem entry",
            ExistingKind::UnknownEntry => "an existing filesystem entry",
        }
    }
}

/// What occupies an existing destination, observed without following it: a
/// link is no occupant to describe (the destination is unsafe), a file or a
/// directory is itself, anything else is a special entry.
pub fn classify_existing(is_link: bool, is_file: bool, is_dir: bool) -> (r: Option<ExistingKind>)
    ensures
        r == (if is_link {
            None
        } else if is_file {
            Some(ExistingKind::RegularFile)
        } else if is_dir {
            Some(ExistingKind::Directory)
        } else {
            Some(ExistingKind::SpecialEntry)
        }),
{
    if is_link {
        None
    } else if is_file {
        Some(ExistingKind::RegularFile)
    } else if is_dir {
        Some(ExistingKind::Directory)
    } else {
        Some(ExistingKind::SpecialEntry)
    }
}

/// A step of delivering bytes to a created output.
#[derive(Clone, Copy, Debug, PartialEq, Eq, Structural)]
pub enum DeliveryStage {
    ValidateCreatedHandle,
    Write,
    Flush,
    SynchronizeData,
    ValidateCompletedHandle,
}

impl DeliveryStage {
    pub open spec fn spec_description(self) -> Seq<char> {
        match self {
            DeliveryStage::ValidateCreatedHandle => "created-handle validation"@,
            DeliveryStage::Write => "write"@,
            DeliveryStage::Flush => "userspace flush"@,
            DeliveryStage::SynchronizeData => "data synchronization"@,
            DeliveryStage::ValidateCompletedHandle => "completed-handle validation"@,
        }
    }

    /// How the step is named in a diagnostic.
    pub fn description(&self) -> (s: &'static str)
        ensures
            s@ == self.spec_description(),
    {
        match self {
            DeliveryStage::ValidateCreatedHandle => "created-handle validation",
            DeliveryStage::Write => "write",
            DeliveryStage::Flush => "userspace flush",
            DeliveryStage::SynchronizeData => "data synchronization",
            DeliveryStage::ValidateCompletedHandle => "completed-handle validation",
        }
    }
}

/// Whether a parent directory's permission bits grant some write and some
/// search permission, without which nothing can be created in it.
pub fn parent_mode_allows_creation(mode: u32) -> (r: bool)
    ensures
        r == (mode & 0o222u32 != 0 && mode & 0o111u32 != 0),
{
    mode & 0o222 != 0 && mode & 0o111 != 0
}

} // verus!
