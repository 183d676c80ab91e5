//! The document store: the documents of a workspace, keyed by their URI, and
//! the mutations that editors and the file watcher cause.
//!
//! Every mutation is stated as a function on the workspace's view. The
//! workspace counts its mutations; a document carries the count at which its
//! text last changed, so that a URI and a revision together name one text.

use crate::bytes::{bytes_same, copy_range};
use crate::document::{
    apply_changes, bring_utf8, clamps, cursor_after, language_of_path, Document, DocumentView,
    Language, Owner, TextChange,
};
use crate::graph::{classes_of, graph_of};
use crate::project::{class_offsets, include_graph, lemma_graph_of_sources, same_sources};
use crate::text::{offset_of, Position};
use crate::uri::is_normal;
use crate::document::share;
use crate::paths::{contains, copy, empty_set, held, insert, remove};
use rustc_hash::FxHashSet;
use std::sync::Arc;
use vstd::prelude::*;
use vstd::utf8::valid_utf8;

verus! {

/// What a workspace is, as plain values.
pub ghost struct WorkspaceView {
    pub documents: Seq<DocumentView>,
    pub roots: Seq<Seq<u8>>,
    /// The files of the TeX distribution: file name and location.
    pub distro: Seq<(Seq<u8>, Seq<u8>)>,
    pub revision: int,
}

/// What a mutation tells the listeners of a workspace.
pub enum WorkspaceEvent {
    /// The text of the document with this URI changed.
    Changed(Vec<u8>),
}

/// What a batch of changes did to the workspace.
pub struct Edited {
    /// The event of the change, if a document changed.
    pub event: Option<WorkspaceEvent>,
    /// Whether a position of the batch lay outside the text and was clamped.
    pub clamped: bool,
}

/// What the file watcher saw.
#[derive(Debug, PartialEq, Eq, Clone, Copy, Structural)]
pub enum FileEventKind {
    Create,
    Modify,
    Remove,
    Other,
}

/// A file that is to be read from disk and handed to `Workspace::open` as a
/// document owned by the server.
pub struct LoadRequest {
    pub path: Vec<u8>,
    pub language: Language,
}

/// The first index at or after `from` of a document with this URI.
pub open spec fn index_from(documents: Seq<DocumentView>, uri: Seq<u8>, from: int) -> Option<int>
    decreases documents.len() - from,
{
    if from < 0 || from >= documents.len() {
        None
    } else if documents[from].uri == uri {
        Some(from)
    } else {
        index_from(documents, uri, from + 1)
    }
}

/// `index_from` finds the first document with the URI, and none where there is
/// none.
pub proof fn lemma_index_from(documents: Seq<DocumentView>, uri: Seq<u8>, from: int)
    requires
        0 <= from,
    ensures
        match index_from(documents, uri, from) {
            Some(i) => from <= i < documents.len() && documents[i].uri == uri && forall|k: int|
                from <= k < i ==> (#[trigger] documents[k]).uri != uri,
            None => forall|k: int| from <= k < documents.len() ==> (#[trigger] documents[k]).uri != uri,
        },
    decreases documents.len() - from,
{
    if from < documents.len() && documents[from].uri != uri {
        lemma_index_from(documents, uri, from + 1);
    }
}

/// Whether no two documents have the same URI.
pub open spec fn distinct_uris(documents: Seq<DocumentView>) -> bool {
    forall|j: int, k: int|
        0 <= j < k < documents.len() ==> (#[trigger] documents[j]).uri != (#[trigger] documents[k]).uri
}

/// The paths among `paths` that are to be loaded after the watcher saw them
/// created or modified: those that are not held by an editor and whose
/// extension names a language; each with that language, in order.
pub open spec fn wanted(workspace: WorkspaceView, paths: Seq<Seq<u8>>) -> Seq<(Seq<u8>, Language)>
    decreases paths.len(),
{
    if paths.len() == 0 {
        Seq::empty()
    } else {
        let before = wanted(workspace, paths.drop_last());
        if workspace.loadable(paths.last()) {
            before.push((paths.last(), language_of_path(paths.last())->0))
        } else {
            before
        }
    }
}

/// The workspace after the watcher saw each of `paths` removed, in order.
pub open spec fn without_all(workspace: WorkspaceView, paths: Seq<Seq<u8>>) -> WorkspaceView
    decreases paths.len(),
{
    if paths.len() == 0 {
        workspace
    } else {
        without_all(workspace, paths.drop_last()).without(paths.last())
    }
}

/// Each removal leaves the revision where it was or counts it up by one, so
/// the revision after some of the removals is at most that after all.
pub proof fn lemma_removals_count_up(workspace: WorkspaceView, paths: Seq<Seq<u8>>, some: int)
    requires
        0 <= some <= paths.len(),
    ensures
        workspace.revision <= without_all(workspace, paths.take(some)).revision <= without_all(
            workspace,
            paths,
        ).revision,
    decreases paths.len(),
{
    if some == paths.len() {
        assert(paths.take(some) =~= paths);
        if paths.len() > 0 {
            lemma_removals_count_up(workspace, paths.drop_last(), some - 1);
            assert(paths.drop_last().take(some - 1) =~= paths.drop_last());
        }
    } else {
        lemma_removals_count_up(workspace, paths.drop_last(), some);
        assert(paths.drop_last().take(some) =~= paths.take(some));
    }
}

/// The paths and languages of some load requests.
pub open spec fn requested(requests: Seq<LoadRequest>) -> Seq<(Seq<u8>, Language)> {
    Seq::new(requests.len(), |k: int| (requests[k].path@, requests[k].language))
}

/// The byte strings of `paths`.
pub open spec fn paths_of(paths: Seq<Vec<u8>>) -> Seq<Seq<u8>> {
    Seq::new(paths.len(), |k: int| paths[k]@)
}

/// The byte strings of pairs of a file name and a location.
pub open spec fn files_of(files: Seq<(Vec<u8>, Vec<u8>)>) -> Seq<(Seq<u8>, Seq<u8>)> {
    Seq::new(files.len(), |k: int| (files[k].0@, files[k].1@))
}

impl WorkspaceView {
    /// The index of the document with this URI.
    pub open spec fn index_of(self, uri: Seq<u8>) -> Option<int> {
        index_from(self.documents, uri, 0)
    }

    /// Whether a document with this URI is held.
    pub open spec fn has(self, uri: Seq<u8>) -> bool {
        self.index_of(uri) is Some
    }

    /// The workspace with document `i` replaced and the mutation counted.
    pub open spec fn changed(self, i: int, document: DocumentView) -> WorkspaceView {
        WorkspaceView {
            documents: self.documents.update(i, document),
            revision: self.revision + 1,
            ..self
        }
    }

    /// After `open`: the document with this URI has the text, the language and
    /// the owner given. One that was held keeps its cursor; a new one comes
    /// last, with the cursor at zero. The mutation is counted and stamps the
    /// document.
    pub open spec fn with_opened(
        self,
        uri: Seq<u8>,
        text: Seq<u8>,
        language: Language,
        owner: Owner,
    ) -> WorkspaceView {
        match self.index_of(uri) {
            Some(i) => self.changed(
                i,
                DocumentView { text, language, owner, revision: self.revision + 1, ..self.documents[i] },
            ),
            None => WorkspaceView {
                documents: self.documents.push(
                    DocumentView { uri, text, language, owner, cursor: 0, revision: self.revision + 1 },
                ),
                revision: self.revision + 1,
                ..self
            },
        }
    }

    /// After `edit`: the changes are applied to the document with this URI. An
    /// unknown URI or an empty batch leaves the workspace as it was.
    pub open spec fn with_changes(self, uri: Seq<u8>, changes: Seq<TextChange>) -> WorkspaceView {
        match self.index_of(uri) {
            Some(i) => if changes.len() > 0 {
                self.changed(
                    i,
                    DocumentView {
                        text: apply_changes(self.documents[i].text, changes),
                        cursor: cursor_after(self.documents[i].text, self.documents[i].cursor, changes),
                        revision: self.revision + 1,
                        ..self.documents[i]
                    },
                )
            } else {
                self
            },
            None => self,
        }
    }

    /// Whether a position of a batch of changes lies outside the text of the
    /// document with this URI as the change finds it, and is clamped.
    pub open spec fn clamps(self, uri: Seq<u8>, changes: Seq<TextChange>) -> bool {
        match self.index_of(uri) {
            Some(i) => clamps(self.documents[i].text, changes),
            None => false,
        }
    }

    /// Whether the text of the document with this URI is UTF-8. It is of a
    /// document that is not held.
    pub open spec fn holds_utf8(self, uri: Seq<u8>) -> bool {
        match self.index_of(uri) {
            Some(i) => valid_utf8(self.documents[i].text),
            None => true,
        }
    }

    /// Whether the document with this URI holds UTF-8 and every change of a
    /// batch brings UTF-8.
    pub open spec fn brings_utf8(self, uri: Seq<u8>, changes: Seq<TextChange>) -> bool {
        self.holds_utf8(uri) && bring_utf8(changes)
    }

    /// After `replace`: the document with this URI has the new text and its
    /// cursor at zero.
    pub open spec fn with_text(self, uri: Seq<u8>, text: Seq<u8>) -> WorkspaceView {
        match self.index_of(uri) {
            Some(i) => self.changed(
                i,
                DocumentView { text, cursor: 0, revision: self.revision + 1, ..self.documents[i] },
            ),
            None => self,
        }
    }

    /// After `set_owner`: only the owner of the document differs.
    pub open spec fn with_owner(self, uri: Seq<u8>, owner: Owner) -> WorkspaceView {
        match self.index_of(uri) {
            Some(i) => WorkspaceView {
                documents: self.documents.update(i, DocumentView { owner, ..self.documents[i] }),
                ..self
            },
            None => self,
        }
    }

    /// After `set_cursor`: only the cursor of the document differs.
    pub open spec fn with_cursor(self, uri: Seq<u8>, cursor: int) -> WorkspaceView {
        match self.index_of(uri) {
            Some(i) => WorkspaceView {
                documents: self.documents.update(i, DocumentView { cursor, ..self.documents[i] }),
                ..self
            },
            None => self,
        }
    }

    /// Whether the document with this URI may be removed: it is held, and not
    /// by an editor.
    pub open spec fn removable(self, uri: Seq<u8>) -> bool {
        match self.index_of(uri) {
            Some(i) => self.documents[i].owner == Owner::Server,
            None => false,
        }
    }

    /// After `remove`: the document is gone if it was removable, and the
    /// mutation is counted; otherwise nothing changed.
    pub open spec fn without(self, uri: Seq<u8>) -> WorkspaceView {
        if self.removable(uri) {
            WorkspaceView {
                documents: self.documents.remove(self.index_of(uri)->0),
                revision: self.revision + 1,
                ..self
            }
        } else {
            self
        }
    }

    /// Whether a file that the watcher saw created or modified is to be
    /// loaded: no editor holds it, and its extension names a language.
    pub open spec fn loadable(self, path: Seq<u8>) -> bool {
        &&& match self.index_of(path) {
            Some(i) => self.documents[i].owner == Owner::Server,
            None => true,
        }
        &&& language_of_path(path) is Some
    }
}

/// Changes that bring UTF-8 to a document that holds UTF-8 leave it holding
/// UTF-8: no change cuts a character in two.
pub proof fn lemma_changes_keep_utf8(workspace: WorkspaceView, uri: Seq<u8>, changes: Seq<TextChange>)
    requires
        workspace.brings_utf8(uri, changes),
    ensures
        workspace.with_changes(uri, changes).holds_utf8(uri),
{
    lemma_index_from(workspace.documents, uri, 0);
    match workspace.index_of(uri) {
        Some(i) => {
            if changes.len() > 0 {
                crate::encoding::lemma_changes_keep_utf8(workspace.documents[i].text, changes);
                let after = workspace.with_changes(uri, changes);
                lemma_index_from(after.documents, uri, 0);
                assert(after.documents[i].uri == uri);
                assert(after.index_of(uri) == Some(i));
            }
        },
        None => {},
    }
}

/// An empty batch of changes leaves the workspace as it was: no text, no
/// cursor and no revision changes.
pub proof fn lemma_empty_batch_changes_nothing(workspace: WorkspaceView, uri: Seq<u8>)
    ensures
        workspace.with_changes(uri, Seq::empty()) == workspace,
{
}

/// A document that is opened is held afterwards, under the index that it
/// had, or, if it is new, under the last index.
pub proof fn lemma_opened_is_held(
    workspace: WorkspaceView,
    uri: Seq<u8>,
    text: Seq<u8>,
    language: Language,
    owner: Owner,
)
    ensures
        workspace.with_opened(uri, text, language, owner).index_of(uri) == Some(
            match workspace.index_of(uri) {
                Some(i) => i,
                None => workspace.documents.len() as int,
            },
        ),
{
    let after = workspace.with_opened(uri, text, language, owner);
    lemma_index_from(workspace.documents, uri, 0);
    lemma_index_from(after.documents, uri, 0);
    match workspace.index_of(uri) {
        Some(i) => {
            assert(after.documents[i].uri == uri);
            assert forall|k: int| 0 <= k < i implies (#[trigger] after.documents[k]).uri != uri by {
                assert(after.documents[k] == workspace.documents[k]);
            }
        },
        None => {
            let last = workspace.documents.len() as int;
            assert(after.documents[last].uri == uri);
            assert forall|k: int| 0 <= k < last implies (#[trigger] after.documents[k]).uri != uri by {
                assert(after.documents[k] == workspace.documents[k]);
            }
        },
    }
}

/// Opening a document, closing it, and opening it again with the same text
/// and language leaves it where it was, with the same text; so what is read
/// off it, its includes and its entries, is the same as after the first
/// opening.
pub proof fn lemma_reopen_same_analysis(
    workspace: WorkspaceView,
    uri: Seq<u8>,
    text: Seq<u8>,
    language: Language,
    first: Owner,
    second: Owner,
)
    ensures
        ({
            let opened = workspace.with_opened(uri, text, language, first);
            let closed = opened.with_owner(uri, Owner::Server);
            let reopened = closed.with_opened(uri, text, language, second);
            &&& opened.index_of(uri) matches Some(i)
            &&& reopened.index_of(uri) == Some(i)
            &&& reopened.documents.len() == opened.documents.len()
            &&& reopened.documents[i].text == opened.documents[i].text
            &&& reopened.documents[i].language == opened.documents[i].language
            &&& reopened.documents[i].links() == opened.documents[i].links()
            &&& reopened.documents[i].entries() == opened.documents[i].entries()
        }),
{
    let opened = workspace.with_opened(uri, text, language, first);
    let closed = opened.with_owner(uri, Owner::Server);
    lemma_opened_is_held(workspace, uri, text, language, first);
    let i = opened.index_of(uri)->0;
    lemma_index_from(opened.documents, uri, 0);
    lemma_index_from(closed.documents, uri, 0);
    assert(closed.documents[i].uri == uri);
    assert forall|k: int| 0 <= k < i implies (#[trigger] closed.documents[k]).uri != uri by {
        assert(closed.documents[k] == opened.documents[k]);
    }
    assert(closed.index_of(uri) == Some(i));
    lemma_opened_is_held(closed, uri, text, language, second);
    let reopened = closed.with_opened(uri, text, language, second);
    lemma_index_from(workspace.documents, uri, 0);
    match workspace.index_of(uri) {
        Some(j) => {
            assert(i == j);
            assert(opened.documents == workspace.documents.update(
                j,
                DocumentView {
                    text,
                    language,
                    owner: first,
                    revision: workspace.revision + 1,
                    ..workspace.documents[j]
                },
            ));
        },
        None => {
            assert(i == workspace.documents.len());
        },
    }
    assert(0 <= i < opened.documents.len());
    assert(opened.documents[i].text == text);
    assert(opened.documents[i].language == language);
    assert(reopened.documents[i].text == text);
    assert(reopened.documents[i].language == language);
    assert(reopened.documents.len() == opened.documents.len());
}

/// Closing a document keeps it in the workspace, with its text and its
/// revision: only its owner is the server from then on.
pub proof fn lemma_close_keeps_document(workspace: WorkspaceView, uri: Seq<u8>)
    ensures
        ({
            let closed = workspace.with_owner(uri, Owner::Server);
            &&& closed.documents.len() == workspace.documents.len()
            &&& closed.revision == workspace.revision
            &&& forall|k: int|
                0 <= k < workspace.documents.len() ==> (#[trigger] closed.documents[k]).uri
                    == workspace.documents[k].uri && closed.documents[k].text
                    == workspace.documents[k].text && closed.documents[k].revision
                    == workspace.documents[k].revision
            &&& workspace.index_of(uri) matches Some(i) ==> closed.documents[i].owner == Owner::Server
        }),
{
    lemma_index_from(workspace.documents, uri, 0);
}

/// What the file watcher removes is never a document that an editor holds:
/// every such document is still held afterwards, as it was.
pub proof fn lemma_remove_spares_editors(workspace: WorkspaceView, uri: Seq<u8>, k: int)
    requires
        0 <= k < workspace.documents.len(),
        workspace.documents[k].owner == Owner::Client,
    ensures
        exists|j: int|
            0 <= j < workspace.without(uri).documents.len() && #[trigger] workspace.without(
                uri,
            ).documents[j] == workspace.documents[k],
{
    lemma_index_from(workspace.documents, uri, 0);
    let after = workspace.without(uri);
    if workspace.removable(uri) {
        let i = workspace.index_of(uri)->0;
        if k < i {
            assert(after.documents[k] == workspace.documents[k]);
        } else {
            assert(after.documents[k - 1] == workspace.documents[k]);
        }
    } else {
        assert(after.documents[k] == workspace.documents[k]);
    }
}

/// Whether two lists of documents have the same URIs at the same places.
pub open spec fn same_uris(a: Seq<DocumentView>, b: Seq<DocumentView>) -> bool {
    a.len() == b.len() && forall|k: int| 0 <= k < a.len() ==> (#[trigger] a[k]).uri == b[k].uri
}

/// Lists with the same URIs hold a document under the same URIs.
pub proof fn lemma_same_uris(a: Seq<DocumentView>, b: Seq<DocumentView>, uri: Seq<u8>, from: int)
    requires
        same_uris(a, b),
        0 <= from,
    ensures
        index_from(a, uri, from) == index_from(b, uri, from),
    decreases a.len() - from,
{
    if from < a.len() {
        assert(a[from].uri == b[from].uri);
        if a[from].uri != uri {
            lemma_same_uris(a, b, uri, from + 1);
        }
    }
}

/// A list with one more document holds a document under its URI and under
/// every URI of the list.
pub proof fn lemma_pushed_is_held(documents: Seq<DocumentView>, document: DocumentView, uri: Seq<u8>)
    ensures
        index_from(documents.push(document), uri, 0) is Some <==> index_from(documents, uri, 0)
            is Some || document.uri == uri,
{
    let longer = documents.push(document);
    lemma_index_from(documents, uri, 0);
    lemma_index_from(longer, uri, 0);
    match index_from(documents, uri, 0) {
        Some(i) => {
            assert(longer[i].uri == uri);
        },
        None => {
            if document.uri == uri {
                assert(longer[documents.len() as int].uri == uri);
            } else {
                assert forall|k: int| 0 <= k < longer.len() implies (#[trigger] longer[k]).uri
                    != uri by {
                    if k < documents.len() {
                        assert(longer[k] == documents[k]);
                    }
                }
            }
        },
    }
}

/// A list without one of its documents holds a document under every other
/// URI of the list, and none under the URI of that document, if no two
/// documents have the same URI.
pub proof fn lemma_removed_is_not_held(documents: Seq<DocumentView>, i: int, uri: Seq<u8>)
    requires
        distinct_uris(documents),
        0 <= i < documents.len(),
    ensures
        index_from(documents.remove(i), uri, 0) is Some <==> index_from(documents, uri, 0) is Some
            && documents[i].uri != uri,
{
    let shorter = documents.remove(i);
    lemma_index_from(documents, uri, 0);
    lemma_index_from(shorter, uri, 0);
    match index_from(shorter, uri, 0) {
        Some(k) => {
            if k < i {
                assert(shorter[k] == documents[k]);
            } else {
                assert(shorter[k] == documents[k + 1]);
            }
        },
        None => {
            match index_from(documents, uri, 0) {
                Some(j) => {
                    if j < i {
                        assert(shorter[j] == documents[j]);
                    } else if j > i {
                        assert(shorter[j - 1] == documents[j]);
                    }
                },
                None => {},
            }
        },
    }
}

/// The documents of a workspace and the directories in which includes are
/// searched.
pub struct Workspace {
    documents: Arc<Vec<Document>>,
    uris: Arc<FxHashSet<Vec<u8>>>,
    roots: Arc<Vec<Vec<u8>>>,
    distro: Arc<Vec<(Vec<u8>, Vec<u8>)>>,
    revision: u64,
    graph: Option<Arc<CachedGraph>>,
}

/// The include graph as it was at some revision of the workspace.
struct CachedGraph {
    stamp: u64,
    lists: Vec<Vec<usize>>,
    classes: Vec<Option<usize>>,
}

impl View for Workspace {
    type V = WorkspaceView;

    closed spec fn view(&self) -> WorkspaceView {
        WorkspaceView {
            documents: Seq::new(self.documents@.len(), |k: int| self.documents@[k]@),
            roots: Seq::new(self.roots@.len(), |k: int| self.roots@[k]@),
            distro: Seq::new(self.distro@.len(), |k: int| (self.distro@[k].0@, self.distro@[k].1@)),
            revision: self.revision as int,
        }
    }
}

impl Workspace {
    /// Every document is consistent with its text, every URI is in normal
    /// form, no URI occurs twice, and no document is stamped later than the
    /// workspace's own count.
    pub closed spec fn wf(&self) -> bool {
        &&& forall|k: int| 0 <= k < self.documents@.len() ==> (#[trigger] self.documents@[k]).wf()
        &&& self.indexed()
        &&& distinct_uris(self@.documents)
        &&& forall|k: int|
            0 <= k < self.documents@.len() ==> (#[trigger] self.documents@[k])@.revision
                <= self.revision
        &&& forall|k: int|
            0 <= k < self.documents@.len() ==> is_normal((#[trigger] self.documents@[k])@.uri)
        &&& match self.graph {
            Some(cached) => cached.stamp <= self.revision && (cached.stamp == self.revision
                ==> self.holds_graph(cached.lists@, cached.classes@)),
            None => true,
        }
    }

    /// Whether the set of URIs holds the URI of every document, and no other.
    pub closed spec fn indexed(&self) -> bool {
        forall|uri: Seq<u8>| #[trigger] held(*self.uris).contains(uri) <==> self@.has(uri)
    }

    /// Whether these are the include graph and the class declarations of the
    /// workspace as it is.
    pub open spec fn holds_graph(&self, lists: Seq<Vec<usize>>, classes: Seq<Option<usize>>) -> bool {
        &&& graph_of(lists) == include_graph(self@)
        &&& classes_of(classes) == class_offsets(self@)
        &&& lists.len() == self@.documents.len()
        &&& classes.len() == self@.documents.len()
    }

    /// Whether the include graph that is kept is that of the workspace as it
    /// is: it was computed at the current revision.
    pub closed spec fn spec_graph_is_current(&self) -> bool {
        self.graph matches Some(cached) && cached.stamp == self.revision
    }

    /// Whether the include graph that is kept is that of the workspace as it
    /// is. It is not after a change of a text, of the set of documents, or of
    /// the search directories; a change of an owner or a cursor leaves it
    /// current.
    #[verifier::when_used_as_spec(spec_graph_is_current)]
    pub fn graph_is_current(&self) -> (current: bool)
        ensures
            current == self.spec_graph_is_current(),
    {
        match &self.graph {
            Some(cached) => cached.stamp == self.revision,
            None => false,
        }
    }

    /// The include graph and the class declarations that are kept, if they
    /// are current.
    pub(crate) fn cached_graph(&self) -> (kept: Option<(&Vec<Vec<usize>>, &Vec<Option<usize>>)>)
        requires
            self.wf(),
        ensures
            kept is Some == self.spec_graph_is_current(),
            kept matches Some((lists, classes)) ==> self.holds_graph(lists@, classes@),
    {
        match &self.graph {
            Some(cached) => if cached.stamp == self.revision {
                Some((&cached.lists, &cached.classes))
            } else {
                None
            },
            None => None,
        }
    }

    /// Keeps the include graph and the class declarations of the workspace as
    /// it is, until the next mutation.
    pub(crate) fn keep_graph(&mut self, lists: Vec<Vec<usize>>, classes: Vec<Option<usize>>)
        requires
            old(self).wf(),
            old(self).holds_graph(lists@, classes@),
        ensures
            final(self).wf(),
            final(self)@ == old(self)@,
            final(self).spec_graph_is_current(),
    {
        self.graph = Some(Arc::new(CachedGraph { stamp: self.revision, lists, classes }));
    }

    /// What `wf` says of the view.
    pub proof fn lemma_wf(&self)
        requires
            self.wf(),
        ensures
            distinct_uris(self@.documents),
            forall|k: int|
                0 <= k < self@.documents.len() ==> (#[trigger] self@.documents[k]).revision
                    <= self@.revision,
            0 <= self@.revision <= u64::MAX,
            forall|k: int|
                0 <= k < self@.documents.len() ==> is_normal((#[trigger] self@.documents[k]).uri),
    {
        assert forall|k: int| 0 <= k < self@.documents.len() implies (#[trigger] self@.documents[k]).revision
            <= self@.revision by {
            assert(self.documents@[k]@.revision <= self.revision);
        }
        assert forall|k: int| 0 <= k < self@.documents.len() implies is_normal(
            (#[trigger] self@.documents[k]).uri,
        ) by {
            assert(is_normal(self.documents@[k]@.uri));
        }
    }

    /// An empty workspace that searches includes in `roots`.
    pub fn new(roots: Vec<Vec<u8>>) -> (workspace: Workspace)
        ensures
            workspace.wf(),
            workspace@.documents.len() == 0,
            workspace@.roots == paths_of(roots@),
            workspace@.distro.len() == 0,
            workspace@.revision == 0,
    {
        let workspace = Workspace {
            documents: Arc::new(Vec::new()),
            uris: Arc::new(empty_set()),
            roots: Arc::new(roots),
            distro: Arc::new(Vec::new()),
            revision: 0,
            graph: None,
        };
        assert(workspace@.roots =~= paths_of(roots@));
        workspace
    }

    /// The number of documents.
    pub fn len(&self) -> (count: usize)
        ensures
            count == self@.documents.len(),
    {
        self.documents.len()
    }

    /// The count of mutations so far.
    pub fn revision(&self) -> (revision: u64)
        ensures
            revision == self@.revision,
    {
        self.revision
    }

    /// Whether the count of mutations has room for this many more: a
    /// mutation must not be made without.
    pub fn has_room(&self, mutations: usize) -> (room: bool)
        ensures
            room == (self@.revision + mutations <= u64::MAX),
    {
        let left: u64 = u64::MAX - self.revision;
        mutations as u64 <= left
    }

    /// The document at index `i`.
    pub fn document(&self, i: usize) -> (document: &Document)
        requires
            self.wf(),
            i < self@.documents.len(),
        ensures
            document.wf(),
            document@ == self@.documents[i as int],
    {
        &self.documents[i]
    }

    /// The directories in which includes are searched, after the directory of
    /// the including document.
    pub fn roots(&self) -> (roots: &Vec<Vec<u8>>)
        ensures
            paths_of(roots@) == self@.roots,
    {
        assert(paths_of(self.roots@) =~= self@.roots);
        &self.roots
    }

    /// Sets the directories in which includes are searched. This changes what
    /// includes resolve to, so it counts as a mutation.
    pub fn set_roots(&mut self, roots: Vec<Vec<u8>>)
        requires
            old(self).wf(),
            old(self)@.revision < u64::MAX,
        ensures
            final(self).wf(),
            final(self)@ == (WorkspaceView {
                roots: paths_of(roots@),
                revision: old(self)@.revision + 1,
                ..old(self)@
            }),
    {
        self.roots = Arc::new(roots);
        self.revision = self.revision + 1;
        assert(self@.roots =~= paths_of(roots@));
        assert(self@.documents =~= old(self)@.documents);
        assert(self@.distro =~= old(self)@.distro);
    }

    /// The files of the TeX distribution: file name and location.
    pub fn distro(&self) -> (files: &Vec<(Vec<u8>, Vec<u8>)>)
        ensures
            files_of(files@) == self@.distro,
    {
        assert(files_of(self.distro@) =~= self@.distro);
        &self.distro
    }

    /// Sets the files of the TeX distribution, once it was detected. This
    /// changes what includes resolve to, so it counts as a mutation.
    pub fn set_distro(&mut self, files: Vec<(Vec<u8>, Vec<u8>)>)
        requires
            old(self).wf(),
            old(self)@.revision < u64::MAX,
        ensures
            final(self).wf(),
            final(self)@ == (WorkspaceView {
                distro: files_of(files@),
                revision: old(self)@.revision + 1,
                ..old(self)@
            }),
    {
        self.distro = Arc::new(files);
        self.revision = self.revision + 1;
        assert(self@.distro =~= files_of(files@));
        assert(self@.documents =~= old(self)@.documents);
        assert(self@.roots =~= old(self)@.roots);
    }

    /// The index of the document with this URI. Whether there is one is read
    /// off the set of URIs; only then are the documents walked.
    pub fn lookup(&self, uri: &[u8]) -> (found: Option<usize>)
        requires
            self.wf(),
        ensures
            match found {
                Some(i) => self@.index_of(uri@) == Some(i as int) && i < self@.documents.len()
                    && self@.documents[i as int].uri == uri@,
                None => self@.index_of(uri@) is None,
            },
    {
        if !contains(&self.uris, uri) {
            return None;
        }
        let mut i: usize = 0;
        while i < self.documents.len()
            invariant
                0 <= i <= self.documents@.len(),
                index_from(self@.documents, uri@, i as int) == index_from(self@.documents, uri@, 0),
            decreases self.documents@.len() - i,
        {
            assert(self@.documents[i as int] == self.documents@[i as int]@);
            if bytes_same(self.documents[i].uri().as_slice(), uri) {
                return Some(i);
            }
            i += 1;
        }
        None
    }

    /// Inserts a document, or replaces the text, language and owner of the one
    /// that is held under this URI. The URI is in normal form.
    pub fn open(&mut self, uri: Vec<u8>, text: Vec<u8>, language: Language, owner: Owner) -> (event:
        WorkspaceEvent)
        requires
            old(self).wf(),
            old(self)@.revision < u64::MAX,
            is_normal(uri@),
        ensures
            final(self).wf(),
            final(self)@ == old(self)@.with_opened(uri@, text@, language, owner),
            event matches WorkspaceEvent::Changed(changed) && changed@ == uri@,
    {
        let revision = self.revision + 1;
        let changed = copy_range(uri.as_slice(), 0, uri.len());
        assert(uri@.subrange(0, uri@.len() as int) =~= uri@);
        let ghost before = self@;
        proof {
            lemma_index_from(before.documents, uri@, 0);
        }
        match self.lookup(uri.as_slice()) {
            Some(i) => {
                let mut documents = self.copies();
                documents[i].reopen(text, language, owner, revision);
                self.documents = Arc::new(documents);
                proof {
                    assert(same_uris(before.documents, self@.documents));
                    assert forall|other: Seq<u8>| #[trigger]
                        held(*self.uris).contains(other) <==> self@.has(other) by {
                        lemma_same_uris(before.documents, self@.documents, other, 0);
                    }
                }
                self.revision = revision;
                proof {
                    let after = before.with_opened(uri@, text@, language, owner);
                    assert(self@.documents =~= after.documents);
                    assert(self@.roots =~= after.roots);
                    assert(self@.distro =~= after.distro);
                }
            },
            None => {
                let mut documents = self.copies();
                let mut uris = copy(&self.uris);
                insert(&mut uris, copy_range(uri.as_slice(), 0, uri.len()));
                documents.push(Document::new(uri, text, language, owner, revision));
                self.documents = Arc::new(documents);
                self.uris = Arc::new(uris);
                self.revision = revision;
                proof {
                    let after = before.with_opened(uri@, text@, language, owner);
                    assert(self@.documents =~= after.documents);
                    assert(self@.roots =~= after.roots);
                    assert(self@.distro =~= after.distro);
                    assert forall|other: Seq<u8>| #[trigger]
                        held(*self.uris).contains(other) <==> self@.has(other) by {
                        lemma_pushed_is_held(before.documents, after.documents.last(), other);
                    }
                }
            },
        }
        WorkspaceEvent::Changed(changed)
    }

    /// Applies a batch of content changes to the document with this URI, in
    /// order. Nothing happens, and no event is returned, where the URI is
    /// unknown or the batch is empty. A position that lies outside the text
    /// is clamped, and the result says so. A document that holds UTF-8 holds
    /// it afterwards, if the changes bring UTF-8.
    pub fn edit(&mut self, uri: &[u8], changes: &Vec<TextChange>) -> (done: Edited)
        requires
            old(self).wf(),
            old(self)@.has(uri@) && changes@.len() > 0 ==> old(self)@.revision < u64::MAX,
        ensures
            final(self).wf(),
            final(self)@ == old(self)@.with_changes(uri@, changes@),
            match done.event {
                Some(WorkspaceEvent::Changed(changed)) => changed@ == uri@ && old(self)@.has(uri@)
                    && changes@.len() > 0,
                None => !old(self)@.has(uri@) || changes@.len() == 0,
            },
            done.clamped == old(self)@.clamps(uri@, changes@),
            old(self)@.brings_utf8(uri@, changes@) ==> final(self)@.holds_utf8(uri@),
    {
        let ghost before = self@;
        proof {
            lemma_index_from(before.documents, uri@, 0);
            if before.brings_utf8(uri@, changes@) {
                lemma_changes_keep_utf8(before, uri@, changes@);
            }
        }
        match self.lookup(uri) {
            Some(i) => {
                if changes.len() == 0 {
                    return Edited { event: None, clamped: false };
                }
                let revision = self.revision + 1;
                let mut documents = self.copies();
                let applied = documents[i].edit(changes, revision);
                self.documents = Arc::new(documents);
                proof {
                    assert(same_uris(before.documents, self@.documents));
                    assert forall|other: Seq<u8>| #[trigger]
                        held(*self.uris).contains(other) <==> self@.has(other) by {
                        lemma_same_uris(before.documents, self@.documents, other, 0);
                    }
                }
                self.revision = revision;
                proof {
                    let after = before.with_changes(uri@, changes@);
                    assert(self@.documents =~= after.documents);
                    assert(self@.roots =~= after.roots);
                    assert(self@.distro =~= after.distro);
                }
                assert(uri@.subrange(0, uri@.len() as int) =~= uri@);
                Edited {
                    event: Some(WorkspaceEvent::Changed(copy_range(uri, 0, uri.len()))),
                    clamped: applied.clamped,
                }
            },
            None => Edited { event: None, clamped: false },
        }
    }

    /// Replaces the whole text of the document with this URI and puts its
    /// cursor at zero. Nothing happens where the URI is unknown.
    pub fn replace(&mut self, uri: &[u8], text: Vec<u8>) -> (event: Option<WorkspaceEvent>)
        requires
            old(self).wf(),
            old(self)@.has(uri@) ==> old(self)@.revision < u64::MAX,
        ensures
            final(self).wf(),
            final(self)@ == old(self)@.with_text(uri@, text@),
            match event {
                Some(WorkspaceEvent::Changed(changed)) => changed@ == uri@ && old(self)@.has(uri@),
                None => !old(self)@.has(uri@),
            },
    {
        let ghost before = self@;
        proof {
            lemma_index_from(before.documents, uri@, 0);
        }
        match self.lookup(uri) {
            Some(i) => {
                let revision = self.revision + 1;
                let mut documents = self.copies();
                documents[i].replace(text, revision);
                self.documents = Arc::new(documents);
                proof {
                    assert(same_uris(before.documents, self@.documents));
                    assert forall|other: Seq<u8>| #[trigger]
                        held(*self.uris).contains(other) <==> self@.has(other) by {
                        lemma_same_uris(before.documents, self@.documents, other, 0);
                    }
                }
                self.revision = revision;
                proof {
                    let after = before.with_text(uri@, text@);
                    assert(self@.documents =~= after.documents);
                    assert(self@.roots =~= after.roots);
                    assert(self@.distro =~= after.distro);
                }
                assert(uri@.subrange(0, uri@.len() as int) =~= uri@);
                Some(WorkspaceEvent::Changed(copy_range(uri, 0, uri.len())))
            },
            None => None,
        }
    }

    /// Records who holds the document with this URI. Neither a text nor a
    /// revision changes, and there is no event. Returns whether the URI is
    /// known.
    pub fn set_owner(&mut self, uri: &[u8], owner: Owner) -> (known: bool)
        requires
            old(self).wf(),
        ensures
            final(self).wf(),
            final(self)@ == old(self)@.with_owner(uri@, owner),
            known == old(self)@.has(uri@),
    {
        let ghost before = self@;
        proof {
            lemma_index_from(before.documents, uri@, 0);
        }
        match self.lookup(uri) {
            Some(i) => {
                let mut documents = self.copies();
                documents[i].set_owner(owner);
                self.documents = Arc::new(documents);
                proof {
                    assert(same_uris(before.documents, self@.documents));
                    assert forall|other: Seq<u8>| #[trigger]
                        held(*self.uris).contains(other) <==> self@.has(other) by {
                        lemma_same_uris(before.documents, self@.documents, other, 0);
                    }
                }
                proof {
                    let after = before.with_owner(uri@, owner);
                    assert(self@.documents =~= after.documents);
                    assert(self@.roots =~= after.roots);
                    assert(self@.distro =~= after.distro);
                    assert(same_sources(before, self@));
                    lemma_graph_of_sources(before, self@);
                }
                true
            },
            None => false,
        }
    }

    /// Records the caret of the document with this URI. Neither a text nor a
    /// revision changes, and there is no event. Returns whether the URI is
    /// known.
    pub fn set_cursor(&mut self, uri: &[u8], cursor: usize) -> (known: bool)
        requires
            old(self).wf(),
        ensures
            final(self).wf(),
            final(self)@ == old(self)@.with_cursor(uri@, cursor as int),
            known == old(self)@.has(uri@),
    {
        let ghost before = self@;
        proof {
            lemma_index_from(before.documents, uri@, 0);
        }
        match self.lookup(uri) {
            Some(i) => {
                let mut documents = self.copies();
                documents[i].set_cursor(cursor);
                self.documents = Arc::new(documents);
                proof {
                    assert(same_uris(before.documents, self@.documents));
                    assert forall|other: Seq<u8>| #[trigger]
                        held(*self.uris).contains(other) <==> self@.has(other) by {
                        lemma_same_uris(before.documents, self@.documents, other, 0);
                    }
                }
                proof {
                    let after = before.with_cursor(uri@, cursor as int);
                    assert(self@.documents =~= after.documents);
                    assert(self@.roots =~= after.roots);
                    assert(self@.distro =~= after.distro);
                    assert(same_sources(before, self@));
                    lemma_graph_of_sources(before, self@);
                }
                true
            },
            None => false,
        }
    }

    /// Records the caret of the document with this URI at a position, which is
    /// clamped to the text. Returns the offset, or `None` for an unknown URI.
    pub fn set_cursor_at(&mut self, uri: &[u8], position: Position) -> (offset: Option<usize>)
        requires
            old(self).wf(),
        ensures
            final(self).wf(),
            match old(self)@.index_of(uri@) {
                Some(i) => offset == Some(offset_of(old(self)@.documents[i].text, position) as usize)
                    && final(self)@ == old(self)@.with_cursor(
                    uri@,
                    offset_of(old(self)@.documents[i].text, position),
                ),
                None => offset is None && final(self)@ == old(self)@,
            },
    {
        match self.lookup(uri) {
            Some(i) => {
                let offset = self.documents[i].offset_at(position);
                self.set_cursor(uri, offset);
                Some(offset)
            },
            None => None,
        }
    }

    /// An editor closed the document: the server holds it from now on. It
    /// stays in the workspace.
    pub fn close(&mut self, uri: &[u8]) -> (known: bool)
        requires
            old(self).wf(),
        ensures
            final(self).wf(),
            final(self)@ == old(self)@.with_owner(uri@, Owner::Server),
            known == old(self)@.has(uri@),
    {
        self.set_owner(uri, Owner::Server)
    }

    /// Removes the document with this URI if the server holds it. A document
    /// that an editor holds stays. Returns whether a document was removed.
    pub fn remove(&mut self, uri: &[u8]) -> (removed: bool)
        requires
            old(self).wf(),
            old(self)@.removable(uri@) ==> old(self)@.revision < u64::MAX,
        ensures
            final(self).wf(),
            final(self)@ == old(self)@.without(uri@),
            removed == old(self)@.removable(uri@),
    {
        let ghost before = self@;
        proof {
            lemma_index_from(before.documents, uri@, 0);
        }
        match self.lookup(uri) {
            Some(i) => {
                if self.documents[i].owner() == Owner::Server {
                    let mut documents = self.copies();
                    let mut uris = copy(&self.uris);
                    remove(&mut uris, uri);
                    documents.remove(i);
                    self.documents = Arc::new(documents);
                    self.uris = Arc::new(uris);
                    self.revision = self.revision + 1;
                    proof {
                        let after = before.without(uri@);
                        assert(self@.documents =~= after.documents);
                        assert(self@.roots =~= after.roots);
                        assert(self@.distro =~= after.distro);
                        assert forall|other: Seq<u8>| #[trigger]
                            held(*self.uris).contains(other) <==> self@.has(other) by {
                            lemma_removed_is_not_held(before.documents, i as int, other);
                        }
                    }
                    true
                } else {
                    false
                }
            },
            None => false,
        }
    }

    /// The documents, each copied in constant time: a copy shares its text and
    /// what is derived from it with the document.
    fn copies(&self) -> (documents: Vec<Document>)
        ensures
            documents@ == self.documents@,
    {
        let mut documents: Vec<Document> = Vec::new();
        let mut i: usize = 0;
        while i < self.documents.len()
            invariant
                0 <= i <= self.documents@.len(),
                documents@ == self.documents@.take(i as int),
            decreases self.documents@.len() - i,
        {
            documents.push(self.documents[i].duplicate());
            assert(self.documents@.take(i + 1) =~= self.documents@.take(i as int).push(
                self.documents@[i as int],
            ));
            i += 1;
        }
        assert(self.documents@.take(i as int) =~= self.documents@);
        documents
    }

    /// A copy of the workspace as it is now. Later mutations of the workspace
    /// do not reach the copy, and every read on the copy sees every mutation
    /// made before it was taken. The copy shares the documents, the search
    /// directories, the files of the distribution and the include graph that
    /// is kept with the workspace, so that it is taken in constant time,
    /// however many documents there are and whatever they hold. A mutation
    /// pays for that: it copies the list of documents, not their texts.
    pub fn snapshot(&self) -> (copy: Workspace)
        requires
            self.wf(),
        ensures
            copy.wf(),
            copy@ == self@,
            copy.spec_graph_is_current() == self.spec_graph_is_current(),
    {
        Workspace {
            documents: share(&self.documents),
            uris: share(&self.uris),
            roots: share(&self.roots),
            distro: share(&self.distro),
            revision: self.revision,
            graph: match &self.graph {
                Some(cached) => Some(share(cached)),
                None => None,
            },
        }
    }

    /// Which of `paths` to read from disk after the watcher saw them created
    /// or modified.
    pub fn load_requests(&self, paths: &Vec<Vec<u8>>) -> (requests: Vec<LoadRequest>)
        requires
            self.wf(),
        ensures
            requested(requests@) == wanted(self@, paths_of(paths@)),
    {
        let mut requests: Vec<LoadRequest> = Vec::new();
        let mut i: usize = 0;
        let ghost all = paths_of(paths@);
        assert(all.take(0) =~= Seq::<Seq<u8>>::empty());
        assert(requested(requests@) =~= Seq::<(Seq<u8>, Language)>::empty());
        while i < paths.len()
            invariant
                self.wf(),
                0 <= i <= paths@.len(),
                all == paths_of(paths@),
                requested(requests@) == wanted(self@, all.take(i as int)),
            decreases paths@.len() - i,
        {
            let path = &paths[i];
            assert(all.take(i + 1).drop_last() =~= all.take(i as int));
            assert(all.take(i + 1).last() == path@);
            let ghost before = requested(requests@);
            let free = match self.lookup(path.as_slice()) {
                Some(k) => self.documents[k].owner() == Owner::Server,
                None => true,
            };
            if free {
                match Language::from_path(path.as_slice()) {
                    Some(language) => {
                        assert(path@.subrange(0, path@.len() as int) =~= path@);
                        requests.push(
                            LoadRequest { path: copy_range(path.as_slice(), 0, path.len()), language },
                        );
                        assert(requested(requests@) =~= before.push((path@, language)));
                    },
                    None => {},
                }
            }
            i += 1;
        }
        assert(all.take(i as int) =~= all);
        requests
    }

    /// Applies what the file watcher saw. Created and modified files are not
    /// read here: the files to read are returned, and each is then handed to
    /// `open` with its text. Removed files leave the workspace if the server
    /// holds them. Any other event changes nothing.
    pub fn handle_file_event(&mut self, kind: FileEventKind, paths: &Vec<Vec<u8>>) -> (requests: Vec<
        LoadRequest,
    >)
        requires
            old(self).wf(),
            kind == FileEventKind::Remove ==> without_all(old(self)@, paths_of(paths@)).revision
                <= u64::MAX,
        ensures
            final(self).wf(),
            match kind {
                FileEventKind::Create | FileEventKind::Modify => {
                    &&& final(self)@ == old(self)@
                    &&& requested(requests@) == wanted(old(self)@, paths_of(paths@))
                },
                FileEventKind::Remove => {
                    &&& final(self)@ == without_all(old(self)@, paths_of(paths@))
                    &&& requests@.len() == 0
                },
                FileEventKind::Other => final(self)@ == old(self)@ && requests@.len() == 0,
            },
    {
        match kind {
            FileEventKind::Create | FileEventKind::Modify => self.load_requests(paths),
            FileEventKind::Remove => {
                let ghost all = paths_of(paths@);
                let mut i: usize = 0;
                assert(all.take(0) =~= Seq::<Seq<u8>>::empty());
                while i < paths.len()
                    invariant
                        self.wf(),
                        0 <= i <= paths@.len(),
                        all == paths_of(paths@),
                        self@ == without_all(old(self)@, all.take(i as int)),
                        without_all(old(self)@, all).revision <= u64::MAX,
                    decreases paths@.len() - i,
                {
                    assert(all.take(i + 1).drop_last() =~= all.take(i as int));
                    assert(all.take(i + 1).last() == paths@[i as int]@);
                    proof {
                        lemma_removals_count_up(old(self)@, all, i + 1);
                    }
                    self.remove(paths[i].as_slice());
                    i += 1;
                }
                assert(all.take(i as int) =~= all);
                Vec::new()
            },
            FileEventKind::Other => Vec::new(),
        }
    }
}

} // verus!
