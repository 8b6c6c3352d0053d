//! Picking the image files out of what a walk through a directory tree met.

use vstd::prelude::*;

verus! {

/// What a walk met at one place of the tree.
#[derive(Clone, Copy, Debug, PartialEq, Eq, Structural)]
pub enum EntryKind {
    /// A regular file.
    File,
    /// A directory.
    Directory,
    /// A symbolic link, which the walk does not follow.
    Symlink,
    /// Something else: a device, a socket, a pipe.
    Other,
    /// A place that could not be read.
    Unreadable,
}

/// One place that a walk met: what it is, and its path where the path can be
/// written as text.
#[derive(Debug)]
pub struct WalkEntry {
    pub kind: EntryKind,
    pub path: Option<String>,
}

/// The path that an entry adds to the collection: its own, if it is a
/// regular file whose path can be written as text.
pub open spec fn collected(entry: WalkEntry) -> Option<Seq<char>> {
    match entry.path {
        Some(path) => if entry.kind == EntryKind::File {
            Some(path@)
        } else {
            None
        },
        None => None,
    }
}

/// The paths of the regular files among `entries`, in the order of the walk.
pub open spec fn file_paths(entries: Seq<WalkEntry>) -> Seq<Seq<char>>
    decreases entries.len(),
{
    if entries.len() == 0 {
        Seq::empty()
    } else {
        let before = file_paths(entries.drop_last());
        match collected(entries.last()) {
            Some(path) => before.push(path),
            None => before,
        }
    }
}

/// Every path that was collected is the path of a regular file that the
/// walk met, and none was made up.
pub proof fn lemma_file_paths(entries: Seq<WalkEntry>)
    ensures
        file_paths(entries).len() <= entries.len(),
        forall|i: int|
            0 <= i < file_paths(entries).len() ==> exists|j: int|
                0 <= j < entries.len() && collected(entries[j]) == Some(
                    #[trigger] file_paths(entries)[i],
                ),
        forall|j: int|
            0 <= j < entries.len() && collected(#[trigger] entries[j]) is Some ==> file_paths(
                entries,
            ).contains(collected(entries[j])->0),
    decreases entries.len(),
{
    if entries.len() > 0 {
        let front = entries.drop_last();
        let last = entries.last();
        lemma_file_paths(front);
        let paths = file_paths(entries);
        assert forall|i: int| 0 <= i < paths.len() implies exists|j: int|
            0 <= j < entries.len() && collected(entries[j]) == Some(#[trigger] paths[i]) by {
            if i < file_paths(front).len() {
                let j = choose|j: int|
                    0 <= j < front.len() && collected(front[j]) == Some(file_paths(front)[i]);
                assert(entries[j] == front[j]);
            } else {
                assert(collected(entries[entries.len() - 1]) == Some(paths[i]));
            }
        }
        assert forall|j: int|
            0 <= j < entries.len() && collected(#[trigger] entries[j]) is Some implies paths.contains(
            collected(entries[j])->0,
        ) by {
            if j < front.len() {
                assert(entries[j] == front[j]);
                let path = collected(front[j])->0;
                let i = choose|i: int|
                    0 <= i < file_paths(front).len() && file_paths(front)[i] == path;
                assert(paths[i] == path);
            } else {
                assert(paths[paths.len() - 1] == collected(entries[j])->0);
            }
        }
    }
}

/// Collects the paths of the regular files among `entries`, in the order of
/// the walk. Directories, symbolic links, places that could not be read and
/// paths that are not text are passed over.
pub fn collect_file_paths(entries: &Vec<WalkEntry>) -> (paths: Vec<String>)
    ensures
        paths.deep_view() == file_paths(entries@),
{
    let mut paths: Vec<String> = Vec::new();
    let mut i: usize = 0;
    assert(paths.deep_view() =~= file_paths(entries@.take(0)));
    while i < entries.len()
        invariant
            i <= entries.len(),
            paths.deep_view() == file_paths(entries@.take(i as int)),
        decreases entries.len() - i,
    {
        let ghost before = paths.deep_view();
        proof {
            assert(entries@.take(i + 1).drop_last() =~= entries@.take(i as int));
            assert(entries@.take(i + 1).last() == entries@[i as int]);
        }
        match &entries[i].path {
            Some(path) => {
                if entries[i].kind == EntryKind::File {
                    paths.push(path.clone());
                    assert(paths.deep_view() =~= before.push(path@));
                }
            },
            None => {},
        }
        i += 1;
    }
    assert(entries@.take(i as int) =~= entries@);
    paths
}

} // verus!
