//! Which directories the file watcher watches.
//!
//! The directories that are watched already are kept in a hash set. After a
//! change of the workspace, the directory of every document is watched,
//! each once.

use crate::bytes::copy_range;
use crate::document::{last_index_of, lemma_find_last, SLASH};
use crate::project::directory_of;
use crate::workspace::{paths_of, Workspace, WorkspaceView};
use crate::paths::{empty_set, held, insert};
use rustc_hash::FxHashSet;
use vstd::prelude::*;

verus! {

/// The directories of the first `count` documents that are not among
/// `watched`, each once, in the order of the documents.
pub open spec fn unwatched(workspace: WorkspaceView, watched: Set<Seq<u8>>, count: int) -> Seq<
    Seq<u8>,
>
    decreases count,
{
    if count <= 0 {
        Seq::empty()
    } else {
        let before = unwatched(workspace, watched, count - 1);
        let directory = directory_of(workspace.documents[count - 1].uri);
        if watched.contains(directory) || before.contains(directory) {
            before
        } else {
            before.push(directory)
        }
    }
}

/// `watched` and the directories of the first `count` documents.
pub open spec fn watched_with(workspace: WorkspaceView, watched: Set<Seq<u8>>, count: int) -> Set<
    Seq<u8>,
>
    decreases count,
{
    if count <= 0 {
        watched
    } else {
        watched_with(workspace, watched, count - 1).insert(
            directory_of(workspace.documents[count - 1].uri),
        )
    }
}

/// What is watched: the set of directories for which the watcher was asked.
pub struct FileWatcher {
    watched_dirs: FxHashSet<Vec<u8>>,
}

impl View for FileWatcher {
    type V = Set<Seq<u8>>;

    closed spec fn view(&self) -> Set<Seq<u8>> {
        held(self.watched_dirs)
    }
}

impl FileWatcher {
    /// A watcher that watches nothing yet.
    pub fn new() -> (watcher: FileWatcher)
        ensures
            watcher@ == Set::<Seq<u8>>::empty(),
    {
        FileWatcher { watched_dirs: empty_set() }
    }

    /// The directories to start watching: the directory of every document,
    /// unless it is watched already. They count as watched from now on.
    pub fn watch(&mut self, workspace: &Workspace) -> (directories: Vec<Vec<u8>>)
        requires
            workspace.wf(),
        ensures
            paths_of(directories@) == unwatched(
                workspace@,
                old(self)@,
                workspace@.documents.len() as int,
            ),
            final(self)@ == watched_with(workspace@, old(self)@, workspace@.documents.len() as int),
    {
        let mut directories: Vec<Vec<u8>> = Vec::new();
        assert(paths_of(directories@) =~= Seq::<Seq<u8>>::empty());
        let mut i: usize = 0;
        while i < workspace.len()
            invariant
                workspace.wf(),
                0 <= i <= workspace@.documents.len(),
                paths_of(directories@) == unwatched(workspace@, old(self)@, i as int),
                self@ == watched_with(workspace@, old(self)@, i as int),
                forall|path: Seq<u8>|
                    self@.contains(path) <==> old(self)@.contains(path) || paths_of(
                        directories@,
                    ).contains(path),
            decreases workspace@.documents.len() - i,
        {
            let uri = workspace.document(i).uri();
            let size = uri.len();
            proof {
                lemma_find_last(uri@, size as int, SLASH);
            }
            let end = match last_index_of(uri.as_slice(), SLASH) {
                Some(slash) => slash + 1,
                None => 0,
            };
            let directory = copy_range(uri.as_slice(), 0, end);
            let listed = copy_range(uri.as_slice(), 0, end);
            let ghost before = paths_of(directories@);
            let ghost known = self@;
            if insert(&mut self.watched_dirs, directory) {
                directories.push(listed);
                assert(paths_of(directories@) =~= before.push(listed@));
                assert forall|path: Seq<u8>|
                    self@.contains(path) <==> old(self)@.contains(path) || paths_of(
                        directories@,
                    ).contains(path) by {
                    if path == listed@ {
                        assert(paths_of(directories@)[before.len() as int] == path);
                    } else if before.contains(path) {
                        let k = choose|k: int| 0 <= k < before.len() && before[k] == path;
                        assert(paths_of(directories@)[k] == path);
                    }
                }
            } else {
                assert(self@ =~= known);
            }
            i += 1;
        }
        directories
    }
}

} // verus!
