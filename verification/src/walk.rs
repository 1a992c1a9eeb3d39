//! Choosing, among the entries that a walk of a directory tree came upon,
//! the files to scan.

use crate::text::views;
use vstd::prelude::*;

verus! {

/// What kind of thing a directory entry is.
#[derive(Clone, Copy, Debug, PartialEq, Eq, Structural)]
pub enum EntryKind {
    /// A regular file.
    File,
    /// A directory.
    Directory,
    /// A symbolic link.
    Symlink,
    /// Anything else: a device, a socket, a pipe.
    Other,
}

/// One step of a walk through a directory tree.
pub enum WalkEntry {
    /// An entry that the walk could look at.
    Found {
        /// The path of the entry.
        path: String,
        /// What the entry is.
        kind: EntryKind,
    },
    /// An entry that could not be read or looked at.
    Unreadable,
}

impl WalkEntry {
    /// Whether the entry is a regular file that the walk could look at.
    pub open spec fn is_regular_file(self) -> bool {
        self matches WalkEntry::Found { kind, .. } && kind == EntryKind::File
    }
}

/// The paths of the regular files among `entries`, in the order of the
/// walk. Directories, links and devices are left out, and so is every
/// entry that could not be looked at.
pub open spec fn regular_paths(entries: Seq<WalkEntry>) -> Seq<Seq<char>>
    decreases entries.len(),
{
    if entries.len() == 0 {
        Seq::empty()
    } else {
        let before = regular_paths(entries.drop_last());
        match entries.last() {
            WalkEntry::Found { path, kind: EntryKind::File } => before.push(path@),
            _ => before,
        }
    }
}

/// Picks the files to scan out of what a walk came upon. One bad entry
/// never stops the rest from being listed.
pub fn regular_files(entries: &Vec<WalkEntry>) -> (paths: Vec<String>)
    ensures
        views(paths@) == regular_paths(entries@),
{
    let mut paths: Vec<String> = Vec::new();
    let mut i: usize = 0;
    proof {
        assert(entries@.take(0) =~= Seq::<WalkEntry>::empty());
        assert(views(paths@) =~= Seq::<Seq<char>>::empty());
    }
    while i < entries.len()
        invariant
            i <= entries.len(),
            views(paths@) == regular_paths(entries@.take(i as int)),
        decreases entries.len() - i,
    {
        proof {
            assert(entries@.take(i + 1).drop_last() =~= entries@.take(i as int));
            assert(entries@.take(i + 1).last() == entries@[i as int]);
        }
        match &entries[i] {
            WalkEntry::Found { path, kind: EntryKind::File } => {
                let ghost before = paths@;
                let kept = path.clone();
                paths.push(kept);
                proof {
                    assert(views(paths@) =~= views(before).push(kept@));
                }
            },
            _ => {},
        }
        i = i + 1;
    }
    proof {
        assert(entries@.take(entries@.len() as int) =~= entries@);
    }
    paths
}

} // verus!
