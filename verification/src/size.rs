//! Size estimation: a file counts with its length, a directory with the
//! lengths of all files beneath it.
//!
//! The entries beneath a directory are handed in by the caller. They are
//! what a full traversal of the directory yields (`Commands::sizing_walk`):
//! every entry to any depth, also what an ignore file names, symbolic links
//! not followed.

use vstd::prelude::*;

verus! {

/// What kind of thing a path names, symbolic links not followed.
#[derive(Clone, Copy, Debug, PartialEq, Eq, Structural)]
pub enum EntryKind {
    File,
    Directory,
    /// Neither a regular file nor a directory: a symbolic link, a device.
    Other,
}

/// The metadata of one entry that the logic reads.
#[derive(Clone, Copy, Debug, PartialEq, Eq, Structural)]
pub struct EntryMeta {
    pub kind: EntryKind,
    pub len: u64,
}

/// A count of bytes held in a `u64`: amounts over the maximum stay there.
pub open spec fn saturate(n: int) -> u64 {
    if n <= 0 {
        0
    } else if n >= u64::MAX {
        u64::MAX
    } else {
        n as u64
    }
}

/// What one entry of a walk adds to the size of the walked tree: the length
/// of a regular file, and nothing for anything else or for an entry whose
/// metadata cannot be read (`None`).
pub open spec fn file_bytes(stat: Option<EntryMeta>) -> nat {
    match stat {
        Some(meta) => if meta.kind == EntryKind::File {
            meta.len as nat
        } else {
            0
        },
        None => 0,
    }
}

/// The bytes of all regular files among the entries of a walk.
pub open spec fn tree_bytes(entries: Seq<Option<EntryMeta>>) -> nat
    decreases entries.len(),
{
    if entries.len() == 0 {
        0
    } else {
        tree_bytes(entries.drop_last()) + file_bytes(entries.last())
    }
}

/// The size reported for an entry with metadata `meta`, where `entries` is
/// what a walk beneath it yields.
pub open spec fn entry_size(meta: EntryMeta, entries: Seq<Option<EntryMeta>>) -> u64 {
    if meta.kind == EntryKind::File {
        meta.len
    } else {
        saturate(tree_bytes(entries) as int)
    }
}

/// The size of a directory: sums the lengths of the regular files among
/// the entries that a full traversal of the directory yields, staying at the
/// maximum once it is reached.
pub fn dir_size(entries: &Vec<Option<EntryMeta>>) -> (total: u64)
    ensures
        total == saturate(tree_bytes(entries@) as int),
{
    let mut total: u64 = 0;
    let mut i: usize = 0;
    while i < entries.len()
        invariant
            i <= entries@.len(),
            total == saturate(tree_bytes(entries@.take(i as int)) as int),
        decreases entries@.len() - i,
    {
        proof {
            assert(entries@.take(i + 1).drop_last() =~= entries@.take(i as int));
        }
        match entries[i] {
            Some(meta) => {
                if meta.kind == EntryKind::File {
                    total = total.saturating_add(meta.len);
                }
            },
            None => {},
        }
        i = i + 1;
    }
    proof {
        assert(entries@.take(i as int) =~= entries@);
    }
    total
}

/// The size of an entry: the length of a file, and for anything else the
/// total of the files that a walk beneath it found. `entries` is not read
/// for a file.
pub fn size_hint(meta: &EntryMeta, entries: &Vec<Option<EntryMeta>>) -> (size: u64)
    ensures
        size == entry_size(*meta, entries@),
{
    if meta.kind == EntryKind::File {
        meta.len
    } else {
        dir_size(entries)
    }
}

} // verus!
