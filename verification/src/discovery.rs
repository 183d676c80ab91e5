//! Discovery: the files that includes name and that are not held are looked
//! for on disk, round after round, until a round brings nothing new.
//!
//! No file is read here. A round asks for files; whoever reads them hands
//! back what was found, and is told whether another round follows.

use crate::bytes::copy_range;
use crate::document::{language_of_path, Language, Owner};
use crate::encoding::{from_utf8_lossy, lossy_text};
use crate::analysis::Link;
use crate::project::{
    candidates_of, fresh, lemma_missing_fresh, missing, missing_of, missing_upto, noted_all,
    resolve,
};
use crate::server::{held_by_editor, Server};
use crate::uri::normalized;
use crate::workspace::{paths_of, requested, LoadRequest, WorkspaceView};
use vstd::prelude::*;

verus! {

/// The language in which a file that discovery found is read: that of its
/// extension, and TeX where the extension names none.
pub open spec fn language_or_tex(path: Seq<u8>) -> Language {
    match language_of_path(path) {
        Some(language) => language,
        None => Language::Tex,
    }
}

/// What a round of discovery asks for: each missing file, with the language
/// to read it in.
pub open spec fn asked(workspace: WorkspaceView, attempted: Seq<Seq<u8>>) -> Seq<(Seq<u8>, Language)> {
    Seq::new(
        missing(workspace, attempted).len(),
        |k: int| (missing(workspace, attempted)[k], language_or_tex(missing(workspace, attempted)[k])),
    )
}

/// What became of one request: the bytes of the file, or nothing where the
/// file is not there or could not be read.
pub struct Found {
    pub request: LoadRequest,
    pub bytes: Option<Vec<u8>>,
}

/// Whether a file that was looked for becomes a document: it was read, and
/// no editor holds a document under its path.
pub open spec fn is_loaded(workspace: WorkspaceView, found: Found) -> bool {
    found.bytes is Some && !held_by_editor(workspace, normalized(found.request.path@))
}

/// The workspace after one file was looked for: a file that becomes a
/// document is held with its bytes decoded as UTF-8, without regard to
/// losses.
pub open spec fn with_found(workspace: WorkspaceView, found: Found) -> WorkspaceView {
    if is_loaded(workspace, found) {
        workspace.with_opened(
            normalized(found.request.path@),
            lossy_text(found.bytes->0@),
            found.request.language,
            Owner::Server,
        )
    } else {
        workspace
    }
}

/// The workspace after each of some files was looked for, in order.
pub open spec fn with_all_found(workspace: WorkspaceView, found: Seq<Found>) -> WorkspaceView
    decreases found.len(),
{
    if found.len() == 0 {
        workspace
    } else {
        with_found(with_all_found(workspace, found.drop_last()), found.last())
    }
}

/// How many of some files that were looked for become documents.
pub open spec fn loads(workspace: WorkspaceView, found: Seq<Found>) -> int
    decreases found.len(),
{
    if found.len() == 0 {
        0
    } else {
        loads(workspace, found.drop_last()) + if is_loaded(
            with_all_found(workspace, found.drop_last()),
            found.last(),
        ) {
            1int
        } else {
            0int
        }
    }
}

/// The paths that were looked for.
pub open spec fn paths_found(found: Seq<Found>) -> Seq<Seq<u8>> {
    Seq::new(found.len(), |k: int| found[k].request.path@)
}

/// Every file that becomes a document counts the revision up by one, so the
/// revision after some of the files is at most that after all.
pub proof fn lemma_loads_count_up(workspace: WorkspaceView, found: Seq<Found>, some: int)
    requires
        0 <= some <= found.len(),
    ensures
        with_all_found(workspace, found.take(some)).revision == workspace.revision + loads(
            workspace,
            found.take(some),
        ),
        0 <= loads(workspace, found.take(some)) <= loads(workspace, found),
    decreases found.len(),
{
    if some == found.len() {
        assert(found.take(some) =~= found);
        if found.len() > 0 {
            lemma_loads_count_up(workspace, found.drop_last(), some - 1);
            assert(found.drop_last().take(some - 1) =~= found.drop_last());
        }
    } else {
        lemma_loads_count_up(workspace, found.drop_last(), some);
        assert(found.drop_last().take(some) =~= found.take(some));
    }
}

/// Whether `path` needs no further look: it is held, was looked for, or is
/// among `paths`.
pub open spec fn covered(
    workspace: WorkspaceView,
    attempted: Seq<Seq<u8>>,
    paths: Seq<Seq<u8>>,
    path: Seq<u8>,
) -> bool {
    workspace.has(path) || attempted.contains(path) || paths.contains(path)
}

/// Whether every candidate of an include of document `i` is covered, if the
/// include leads nowhere.
pub open spec fn link_covered(
    workspace: WorkspaceView,
    attempted: Seq<Seq<u8>>,
    paths: Seq<Seq<u8>>,
    i: int,
    link: Link,
) -> bool {
    resolve(workspace, i, link) is None ==> forall|j: int|
        0 <= j < candidates_of(workspace, i, link).len() ==> covered(
            workspace,
            attempted,
            paths,
            #[trigger] candidates_of(workspace, i, link)[j],
        )
}

/// Whether every candidate is covered of each of `links` of document `i`
/// that leads nowhere.
pub open spec fn links_covered(
    workspace: WorkspaceView,
    attempted: Seq<Seq<u8>>,
    paths: Seq<Seq<u8>>,
    i: int,
    links: Seq<Link>,
) -> bool {
    forall|k: int|
        0 <= k < links.len() ==> link_covered(workspace, attempted, paths, i, #[trigger] links[k])
}

/// Whether every candidate is covered of every include of the first `count`
/// documents that leads nowhere.
pub open spec fn documents_covered(
    workspace: WorkspaceView,
    attempted: Seq<Seq<u8>>,
    paths: Seq<Seq<u8>>,
    count: int,
) -> bool {
    forall|i: int|
        0 <= i < count ==> links_covered(
            workspace,
            attempted,
            paths,
            i,
            (#[trigger] workspace.documents[i]).links(),
        )
}

/// Whether `more` holds every path of `paths`.
pub open spec fn extends(paths: Seq<Seq<u8>>, more: Seq<Seq<u8>>) -> bool {
    forall|path: Seq<u8>| #[trigger] paths.contains(path) ==> more.contains(path)
}

proof fn lemma_push_extends(paths: Seq<Seq<u8>>, path: Seq<u8>)
    ensures
        extends(paths, paths.push(path)),
        paths.push(path).contains(path),
{
    assert forall|other: Seq<u8>| #[trigger] paths.contains(other) implies paths.push(path).contains(
        other,
    ) by {
        let at = choose|at: int| 0 <= at < paths.len() && paths[at] == other;
        assert(paths.push(path)[at] == other);
    }
    assert(paths.push(path)[paths.len() as int] == path);
}

proof fn lemma_noted_all_covers(
    workspace: WorkspaceView,
    attempted: Seq<Seq<u8>>,
    paths: Seq<Seq<u8>>,
    options: Seq<Seq<u8>>,
)
    ensures
        extends(paths, noted_all(workspace, attempted, paths, options)),
        forall|j: int|
            0 <= j < options.len() ==> covered(
                workspace,
                attempted,
                noted_all(workspace, attempted, paths, options),
                #[trigger] options[j],
            ),
    decreases options.len(),
{
    if options.len() > 0 {
        let before = noted_all(workspace, attempted, paths, options.drop_last());
        lemma_noted_all_covers(workspace, attempted, paths, options.drop_last());
        lemma_push_extends(before, options.last());
        let after = noted_all(workspace, attempted, paths, options);
        assert(extends(before, after));
        assert forall|j: int| 0 <= j < options.len() implies covered(
            workspace,
            attempted,
            after,
            #[trigger] options[j],
        ) by {
            if j < options.len() - 1 {
                assert(options.drop_last()[j] == options[j]);
                assert(covered(workspace, attempted, before, options[j]));
            }
        }
    }
}

proof fn lemma_missing_of_covers(
    workspace: WorkspaceView,
    attempted: Seq<Seq<u8>>,
    paths: Seq<Seq<u8>>,
    i: int,
    links: Seq<Link>,
)
    ensures
        extends(paths, missing_of(workspace, attempted, paths, i, links)),
        links_covered(workspace, attempted, missing_of(workspace, attempted, paths, i, links), i, links),
    decreases links.len(),
{
    if links.len() > 0 {
        let before = missing_of(workspace, attempted, paths, i, links.drop_last());
        let after = missing_of(workspace, attempted, paths, i, links);
        lemma_missing_of_covers(workspace, attempted, paths, i, links.drop_last());
        lemma_noted_all_covers(workspace, attempted, before, candidates_of(workspace, i, links.last()));
        assert(extends(before, after));
        assert forall|k: int| 0 <= k < links.len() implies link_covered(
            workspace,
            attempted,
            after,
            i,
            #[trigger] links[k],
        ) by {
            if k < links.len() - 1 {
                assert(links.drop_last()[k] == links[k]);
                assert(link_covered(workspace, attempted, before, i, links[k]));
            }
        }
    }
}

proof fn lemma_missing_upto_covers(workspace: WorkspaceView, attempted: Seq<Seq<u8>>, count: int)
    ensures
        documents_covered(workspace, attempted, missing_upto(workspace, attempted, count), count),
    decreases count,
{
    if count > 0 {
        let before = missing_upto(workspace, attempted, count - 1);
        let after = missing_upto(workspace, attempted, count);
        lemma_missing_upto_covers(workspace, attempted, count - 1);
        lemma_missing_of_covers(
            workspace,
            attempted,
            before,
            count - 1,
            workspace.documents[count - 1].links(),
        );
        assert forall|i: int| 0 <= i < count implies links_covered(
            workspace,
            attempted,
            after,
            i,
            (#[trigger] workspace.documents[i]).links(),
        ) by {
            if i < count - 1 {
                let links = workspace.documents[i].links();
                assert(links_covered(workspace, attempted, before, i, links));
                assert forall|k: int| 0 <= k < links.len() implies link_covered(
                    workspace,
                    attempted,
                    after,
                    i,
                    #[trigger] links[k],
                ) by {
                    assert(link_covered(workspace, attempted, before, i, links[k]));
                }
            }
        }
    }
}

proof fn lemma_noted_all_nothing(
    workspace: WorkspaceView,
    attempted: Seq<Seq<u8>>,
    paths: Seq<Seq<u8>>,
    options: Seq<Seq<u8>>,
)
    requires
        forall|j: int|
            0 <= j < options.len() ==> covered(workspace, attempted, paths, #[trigger] options[j]),
    ensures
        noted_all(workspace, attempted, paths, options) == paths,
    decreases options.len(),
{
    if options.len() > 0 {
        assert forall|j: int| 0 <= j < options.drop_last().len() implies covered(
            workspace,
            attempted,
            paths,
            #[trigger] options.drop_last()[j],
        ) by {
            assert(options.drop_last()[j] == options[j]);
        }
        lemma_noted_all_nothing(workspace, attempted, paths, options.drop_last());
        assert(covered(workspace, attempted, paths, options[options.len() - 1]));
    }
}

proof fn lemma_missing_of_nothing(
    workspace: WorkspaceView,
    attempted: Seq<Seq<u8>>,
    paths: Seq<Seq<u8>>,
    i: int,
    links: Seq<Link>,
)
    requires
        links_covered(workspace, attempted, paths, i, links),
    ensures
        missing_of(workspace, attempted, paths, i, links) == paths,
    decreases links.len(),
{
    if links.len() > 0 {
        assert forall|k: int| 0 <= k < links.drop_last().len() implies link_covered(
            workspace,
            attempted,
            paths,
            i,
            #[trigger] links.drop_last()[k],
        ) by {
            assert(links.drop_last()[k] == links[k]);
        }
        lemma_missing_of_nothing(workspace, attempted, paths, i, links.drop_last());
        assert(link_covered(workspace, attempted, paths, i, links[links.len() - 1]));
        if resolve(workspace, i, links.last()) is None {
            lemma_noted_all_nothing(
                workspace,
                attempted,
                paths,
                candidates_of(workspace, i, links.last()),
            );
        }
    }
}

proof fn lemma_missing_upto_nothing(workspace: WorkspaceView, attempted: Seq<Seq<u8>>, count: int)
    requires
        documents_covered(workspace, attempted, Seq::empty(), count),
    ensures
        missing_upto(workspace, attempted, count) == Seq::<Seq<u8>>::empty(),
    decreases count,
{
    if count > 0 {
        assert forall|i: int| 0 <= i < count - 1 implies links_covered(
            workspace,
            attempted,
            Seq::empty(),
            i,
            (#[trigger] workspace.documents[i]).links(),
        ) by {}
        lemma_missing_upto_nothing(workspace, attempted, count - 1);
        assert(links_covered(
            workspace,
            attempted,
            Seq::empty(),
            count - 1,
            workspace.documents[count - 1].links(),
        ));
        lemma_missing_of_nothing(
            workspace,
            attempted,
            Seq::empty(),
            count - 1,
            workspace.documents[count - 1].links(),
        );
    }
}

/// Where every include leads to a document, discovery asks for nothing: so
/// it does where no document has an include.
pub proof fn lemma_resolved_asks_nothing(workspace: WorkspaceView, attempted: Seq<Seq<u8>>)
    requires
        forall|i: int, k: int|
            0 <= i < workspace.documents.len() && 0 <= k < workspace.documents[i].links().len()
                ==> resolve(workspace, i, #[trigger] workspace.documents[i].links()[k]) is Some,
    ensures
        missing(workspace, attempted).len() == 0,
        asked(workspace, attempted).len() == 0,
{
    let count = workspace.documents.len() as int;
    assert forall|i: int| 0 <= i < count implies links_covered(
        workspace,
        attempted,
        Seq::empty(),
        i,
        (#[trigger] workspace.documents[i]).links(),
    ) by {
        let links = workspace.documents[i].links();
        assert forall|k: int| 0 <= k < links.len() implies link_covered(
            workspace,
            attempted,
            Seq::empty(),
            i,
            #[trigger] links[k],
        ) by {
            assert(resolve(workspace, i, workspace.documents[i].links()[k]) is Some);
        }
    }
    lemma_missing_upto_nothing(workspace, attempted, count);
}

/// Discovery comes to rest: once the files that a round asked for count as
/// looked for, the next round asks for nothing, unless a document came of
/// them. So a round that brings no document is the last, and every round
/// before it brought one.
pub proof fn lemma_discovery_rests(workspace: WorkspaceView, attempted: Seq<Seq<u8>>)
    ensures
        missing(workspace, attempted + missing(workspace, attempted)).len() == 0,
        asked(workspace, attempted + missing(workspace, attempted)).len() == 0,
{
    let count = workspace.documents.len() as int;
    let first = missing(workspace, attempted);
    let tried = attempted + first;
    lemma_missing_upto_covers(workspace, attempted, count);
    assert forall|i: int| 0 <= i < count implies links_covered(
        workspace,
        tried,
        Seq::empty(),
        i,
        (#[trigger] workspace.documents[i]).links(),
    ) by {
        let links = workspace.documents[i].links();
        assert(links_covered(workspace, attempted, first, i, links));
        assert forall|k: int| 0 <= k < links.len() implies link_covered(
            workspace,
            tried,
            Seq::empty(),
            i,
            #[trigger] links[k],
        ) by {
            assert(link_covered(workspace, attempted, first, i, links[k]));
            let options = candidates_of(workspace, i, links[k]);
            assert forall|j: int|
                resolve(workspace, i, links[k]) is None && 0 <= j < options.len() implies covered(
                workspace,
                tried,
                Seq::empty(),
                #[trigger] options[j],
            ) by {
                let path = options[j];
                assert(covered(workspace, attempted, first, path));
                if attempted.contains(path) {
                    let at = choose|at: int| 0 <= at < attempted.len() && attempted[at] == path;
                    assert(tried[at] == path);
                } else if first.contains(path) {
                    let at = choose|at: int| 0 <= at < first.len() && first[at] == path;
                    assert(tried[attempted.len() + at] == path);
                }
            }
        }
    }
    lemma_missing_upto_nothing(workspace, tried, count);
}

/// Those of some files that were not looked for yet.
pub open spec fn unread(files: Set<Seq<u8>>, attempted: Seq<Seq<u8>>) -> Set<Seq<u8>> {
    Set::new(|path: Seq<u8>| files.contains(path) && !attempted.contains(path))
}

proof fn lemma_load_was_read(workspace: WorkspaceView, found: Seq<Found>) -> (k: int)
    requires
        loads(workspace, found) > 0,
    ensures
        0 <= k < found.len(),
        found[k].bytes is Some,
    decreases found.len(),
{
    if found.last().bytes is Some {
        found.len() - 1
    } else {
        lemma_load_was_read(workspace, found.drop_last())
    }
}

/// Discovery ends: every round after which another follows uses up a file.
/// Where the files that can be read are finitely many, fewer of them are
/// left to look for after a round that brought a document than before it,
/// so there are no more such rounds than files.
pub proof fn lemma_round_uses_up(
    files: Set<Seq<u8>>,
    workspace: WorkspaceView,
    attempted: Seq<Seq<u8>>,
    found: Seq<Found>,
)
    requires
        files.finite(),
        paths_found(found) == missing(workspace, attempted),
        forall|k: int|
            0 <= k < found.len() && (#[trigger] found[k]).bytes is Some ==> files.contains(
                found[k].request.path@,
            ),
        loads(workspace, found) > 0,
    ensures
        unread(files, attempted + paths_found(found)).len() < unread(files, attempted).len(),
{
    let k = lemma_load_was_read(workspace, found);
    let path = found[k].request.path@;
    let asked = paths_found(found);
    let before = unread(files, attempted);
    let after = unread(files, attempted + asked);
    lemma_missing_fresh(workspace, attempted);
    assert(asked[k] == path);
    assert(!attempted.contains(path));
    assert((attempted + asked)[attempted.len() + k] == path);
    assert(before.contains(path));
    assert(!after.contains(path));
    assert forall|other: Seq<u8>| after.contains(other) implies before.remove(path).contains(
        other,
    ) by {
        if attempted.contains(other) {
            let at = choose|at: int| 0 <= at < attempted.len() && attempted[at] == other;
            assert((attempted + asked)[at] == other);
        }
    }
    vstd::set_lib::lemma_len_subset(before, files);
    vstd::set_lib::lemma_len_subset(after, before.remove(path));
}

/// A file that was found under a path that is not held becomes a document
/// that was not there: the workspace grows by one.
pub proof fn lemma_found_is_new(workspace: WorkspaceView, found: Found)
    requires
        found.bytes is Some,
        !workspace.has(normalized(found.request.path@)),
    ensures
        is_loaded(workspace, found),
        with_found(workspace, found).documents.len() == workspace.documents.len() + 1,
        with_found(workspace, found).has(normalized(found.request.path@)),
{
    crate::workspace::lemma_opened_is_held(
        workspace,
        normalized(found.request.path@),
        lossy_text(found.bytes->0@),
        found.request.language,
        Owner::Server,
    );
}

impl Server {
    /// The files that a round of discovery asks for, given the paths that
    /// were looked for since the last mutation: the candidate locations of
    /// every include that leads nowhere, each once, none that is held and
    /// none that was looked for already.
    pub fn discovery_requests(&self, attempted: &Vec<Vec<u8>>) -> (requests: Vec<LoadRequest>)
        requires
            self.wf(),
        ensures
            requested(requests@) == asked(self.workspace@, paths_of(attempted@)),
            fresh(
                self.workspace@,
                paths_of(attempted@),
                missing(self.workspace@, paths_of(attempted@)),
            ),
    {
        let paths = self.workspace.discover(attempted);
        let ghost all = missing(self.workspace@, paths_of(attempted@));
        let mut requests: Vec<LoadRequest> = Vec::new();
        let mut k: usize = 0;
        while k < paths.len()
            invariant
                0 <= k <= paths@.len(),
                paths_of(paths@) == all,
                requests@.len() == k,
                forall|j: int|
                    0 <= j < k ==> (#[trigger] requests@[j]).path@ == all[j] && requests@[j].language
                        == language_or_tex(all[j]),
            decreases paths@.len() - k,
        {
            let path = &paths[k];
            assert(paths_of(paths@)[k as int] == path@);
            let language = match Language::from_path(path.as_slice()) {
                Some(language) => language,
                None => Language::Tex,
            };
            assert(path@.subrange(0, path@.len() as int) =~= path@);
            requests.push(LoadRequest { path: copy_range(path.as_slice(), 0, path.len()), language });
            k += 1;
        }
        assert(requested(requests@) =~= asked(self.workspace@, paths_of(attempted@)));
        requests
    }

    /// Takes what a round of discovery found. Each file that was read becomes
    /// a document of the server, its bytes decoded as UTF-8 without regard to
    /// losses, unless an editor holds a document under its path; every path
    /// counts as looked for from now on. Another round
    /// follows if a document came of this one: its includes may name further
    /// files.
    pub fn take_found(&mut self, attempted: &mut Vec<Vec<u8>>, found: &Vec<Found>) -> (again: bool)
        requires
            old(self).wf(),
            with_all_found(old(self).workspace@, found@).revision <= u64::MAX,
        ensures
            final(self).wf(),
            final(self).workspace@ == with_all_found(old(self).workspace@, found@),
            paths_of(final(attempted)@) == paths_of(old(attempted)@) + paths_found(found@),
            again == (loads(old(self).workspace@, found@) > 0),
            final(self).options == old(self).options,
            final(self).client == old(self).client,
            final(self).client_info == old(self).client_info,
            final(self).lifecycle == old(self).lifecycle,
    {
        let ghost first = self.workspace@;
        let ghost tried = paths_of(attempted@);
        let mut again = false;
        let mut k: usize = 0;
        assert(found@.take(0) =~= Seq::<Found>::empty());
        assert(paths_of(attempted@) =~= tried + paths_found(found@.take(0)));
        while k < found.len()
            invariant
                self.wf(),
                0 <= k <= found@.len(),
                self.workspace@ == with_all_found(first, found@.take(k as int)),
                with_all_found(first, found@).revision <= u64::MAX,
                paths_of(attempted@) == tried + paths_found(found@.take(k as int)),
                again == (loads(first, found@.take(k as int)) > 0),
                self.options == old(self).options,
                self.client == old(self).client,
                self.client_info == old(self).client_info,
                self.lifecycle == old(self).lifecycle,
            decreases found@.len() - k,
        {
            let one = &found[k];
            proof {
                assert(found@.take(k + 1).drop_last() =~= found@.take(k as int));
                assert(found@.take(k + 1).last() == found@[k as int]);
                lemma_loads_count_up(first, found@, k as int);
                lemma_loads_count_up(first, found@, k + 1);
                lemma_loads_count_up(first, found@, found@.len() as int);
                assert(found@.take(found@.len() as int) =~= found@);
                assert(with_all_found(first, found@.take(k + 1)) == with_found(
                    self.workspace@,
                    found@[k as int],
                ));
            }
            let ghost before = paths_of(attempted@);
            let path = one.request.path.as_slice();
            match &one.bytes {
                Some(bytes) => {
                    let text = from_utf8_lossy(bytes.as_slice());
                    let event = self.load(path, text, one.request.language);
                    if event.is_some() {
                        again = true;
                    }
                },
                None => {},
            }
            assert(path@.subrange(0, path@.len() as int) =~= path@);
            attempted.push(copy_range(path, 0, path.len()));
            proof {
                assert(paths_of(attempted@) =~= before.push(path@));
                assert(paths_found(found@.take(k + 1)) =~= paths_found(found@.take(k as int)).push(
                    path@,
                ));
                assert(paths_of(attempted@) =~= tried + paths_found(found@.take(k + 1)));
            }
            k += 1;
        }
        assert(found@.take(k as int) =~= found@);
        again
    }
}

} // verus!
