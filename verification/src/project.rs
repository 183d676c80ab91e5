//! The projects of a workspace: where includes lead, which documents belong
//! together, which of them is the root, and which files are still missing.
//!
//! An include resolves to the first of its candidate locations that the
//! workspace holds. The candidates of a path are, for each name that the path
//! may stand for, the location in the directory of the including document
//! and then the location in each root directory; an absolute name is its own
//! and only location.

use crate::analysis::{Link, LinkKind};
use crate::bytes::{bytes_of, bytes_same, copy_range, extend_range};
use crate::document::{
    extension_start, find_last, last_index_of, lemma_find_last, DocumentView, DOT, SLASH,
};
use crate::graph::{
    classes_of, component, connected, graph_of, is_root, lemma_connected_reflexive,
    lemma_connected_symmetric, lemma_connected_transitive, root,
};
use crate::text::{position_at, PositionRange};
use crate::uri::{is_normal, normalize, normalized};
use crate::workspace::{
    files_of, index_from, paths_of, Workspace, WorkspaceView,
};
use vstd::prelude::*;
use vstd::slice::slice_subrange;
use vstd::string::*;

verus! {

/// The directory of a URI: everything up to its last slash, the slash included.
pub open spec fn directory_of(uri: Seq<u8>) -> Seq<u8> {
    uri.subrange(0, find_last(uri, uri.len() as int, SLASH) + 1)
}

/// Whether a path starts at the root of the file system.
pub open spec fn is_absolute(path: Seq<u8>) -> bool {
    path.len() > 0 && path[0] == SLASH
}

/// `name` within `directory`.
pub open spec fn join(directory: Seq<u8>, name: Seq<u8>) -> Seq<u8> {
    if directory.len() == 0 || directory[directory.len() - 1] == SLASH {
        directory + name
    } else {
        directory.push(SLASH) + name
    }
}

/// The extension that files of a kind have, with its dot.
pub open spec fn suffix_of(kind: LinkKind) -> Seq<u8> {
    match kind {
        LinkKind::Latex => bytes_of(".tex"),
        LinkKind::Bibliography => bytes_of(".bib"),
        LinkKind::Package => bytes_of(".sty"),
        LinkKind::Class => bytes_of(".cls"),
        LinkKind::Graphic => Seq::empty(),
    }
}

/// The file names that the path of an include may stand for. A package or a
/// class is named without its extension. A TeX or bibliography file is named
/// as it is, and, where the path has no extension, also with the extension
/// of its kind.
pub open spec fn names(path: Seq<u8>, kind: LinkKind) -> Seq<Seq<u8>> {
    match kind {
        LinkKind::Package | LinkKind::Class => seq![path + suffix_of(kind)],
        LinkKind::Latex | LinkKind::Bibliography => if extension_start(path) is Some {
            seq![path]
        } else {
            seq![path, path + suffix_of(kind)]
        },
        LinkKind::Graphic => seq![path],
    }
}

/// `name` within each of `roots`, in normal form.
pub open spec fn rooted(roots: Seq<Seq<u8>>, name: Seq<u8>) -> Seq<Seq<u8>> {
    Seq::new(roots.len(), |k: int| normalized(join(roots[k], name)))
}

/// The locations that the first `count` files of the distribution give for
/// `name`, in normal form.
pub open spec fn shipped(distro: Seq<(Seq<u8>, Seq<u8>)>, name: Seq<u8>, count: int) -> Seq<Seq<u8>>
    decreases count,
{
    if count <= 0 {
        Seq::empty()
    } else {
        let before = shipped(distro, name, count - 1);
        if distro[count - 1].0 == name {
            before.push(normalized(distro[count - 1].1))
        } else {
            before
        }
    }
}

/// Where a file of this name may be, seen from the document at `base`: in
/// the directory of the document, then where the distribution has a file of
/// this name, then in each root directory; each location in normal form.
pub open spec fn locations(
    base: Seq<u8>,
    distro: Seq<(Seq<u8>, Seq<u8>)>,
    roots: Seq<Seq<u8>>,
    name: Seq<u8>,
) -> Seq<Seq<u8>> {
    if is_absolute(name) {
        seq![normalized(name)]
    } else {
        seq![normalized(join(directory_of(base), name))] + shipped(
            distro,
            name,
            distro.len() as int,
        ) + rooted(roots, name)
    }
}

/// Whether every path is in normal form.
pub open spec fn all_normal(paths: Seq<Seq<u8>>) -> bool {
    forall|k: int| 0 <= k < paths.len() ==> is_normal(#[trigger] paths[k])
}

/// Where the file that an include names may be, in the order of search.
pub open spec fn candidates(
    base: Seq<u8>,
    distro: Seq<(Seq<u8>, Seq<u8>)>,
    roots: Seq<Seq<u8>>,
    path: Seq<u8>,
    kind: LinkKind,
) -> Seq<Seq<u8>> {
    let all = names(path, kind);
    if all.len() == 1 {
        locations(base, distro, roots, all[0])
    } else {
        locations(base, distro, roots, all[0]) + locations(base, distro, roots, all[1])
    }
}

/// The index of the document at the first of `options` that is held.
pub open spec fn first_held(documents: Seq<DocumentView>, options: Seq<Seq<u8>>) -> Option<int>
    decreases options.len(),
{
    if options.len() == 0 {
        None
    } else {
        match index_from(documents, options[0], 0) {
            Some(i) => Some(i),
            None => first_held(documents, options.drop_first()),
        }
    }
}

/// The path of an include, as it stands in the text.
pub open spec fn path_of(document: DocumentView, link: Link) -> Seq<u8> {
    document.text.subrange(link.path.start as int, link.path.end as int)
}

/// Where the file that an include of document `i` names may be.
pub open spec fn candidates_of(workspace: WorkspaceView, i: int, link: Link) -> Seq<Seq<u8>> {
    candidates(
        workspace.documents[i].uri,
        workspace.distro,
        workspace.roots,
        path_of(workspace.documents[i], link),
        link.kind,
    )
}

/// The index of the document that an include of document `i` leads to.
pub open spec fn resolve(workspace: WorkspaceView, i: int, link: Link) -> Option<int> {
    first_held(workspace.documents, candidates_of(workspace, i, link))
}

/// The documents that some includes of document `i` lead to, in order.
/// An include that leads nowhere contributes nothing.
pub open spec fn targets_of(workspace: WorkspaceView, i: int, links: Seq<Link>) -> Seq<int>
    decreases links.len(),
{
    if links.len() == 0 {
        Seq::empty()
    } else {
        let before = targets_of(workspace, i, links.drop_last());
        match resolve(workspace, i, links.last()) {
            Some(j) => before.push(j),
            None => before,
        }
    }
}

/// The documents that document `i` includes.
pub open spec fn targets(workspace: WorkspaceView, i: int) -> Seq<int> {
    targets_of(workspace, i, workspace.documents[i].links())
}

/// The include graph: for each document, the documents that it includes.
pub open spec fn include_graph(workspace: WorkspaceView) -> Seq<Seq<int>> {
    Seq::new(workspace.documents.len(), |i: int| targets(workspace, i))
}

/// Whether documents `a` and `b` belong to one project: a chain of includes,
/// each read in either direction, leads from one to the other.
pub open spec fn related(workspace: WorkspaceView, a: int, b: int) -> bool {
    connected(include_graph(workspace), a, b)
}

/// The documents of the project of document `start`, in increasing order of
/// their index.
pub open spec fn project_of(workspace: WorkspaceView, start: int) -> Seq<usize> {
    crate::graph::members_of(include_graph(workspace), start)
}

/// An include that leads to a document: where its path stands in the text,
/// and the index of the document that it leads to.
#[derive(Debug, PartialEq, Eq, Clone, Copy, Structural)]
pub struct DocumentLink {
    pub range: PositionRange,
    pub target: usize,
}

/// Where the path of an include stands, as a range of positions.
pub open spec fn link_range(text: Seq<u8>, link: Link) -> PositionRange {
    PositionRange {
        start: position_at(text, link.path.start as int),
        end: position_at(text, link.path.end as int),
    }
}

/// Those of some includes of document `i` that lead to a document, in order.
pub open spec fn document_links_of(workspace: WorkspaceView, i: int, links: Seq<Link>) -> Seq<
    DocumentLink,
>
    decreases links.len(),
{
    if links.len() == 0 {
        Seq::empty()
    } else {
        let before = document_links_of(workspace, i, links.drop_last());
        match resolve(workspace, i, links.last()) {
            Some(j) => before.push(
                DocumentLink {
                    range: link_range(workspace.documents[i].text, links.last()),
                    target: j as usize,
                },
            ),
            None => before,
        }
    }
}

/// Where the first class declaration among `links` stands.
pub open spec fn class_offset_in(links: Seq<Link>) -> Option<int>
    decreases links.len(),
{
    if links.len() == 0 {
        None
    } else {
        match class_offset_in(links.drop_last()) {
            Some(offset) => Some(offset),
            None => if links.last().kind == LinkKind::Class {
                Some(links.last().path.start as int)
            } else {
                None
            },
        }
    }
}

/// For each document, where it declares its document class.
pub open spec fn class_offsets(workspace: WorkspaceView) -> Seq<Option<int>> {
    Seq::new(workspace.documents.len(), |i: int| class_offset_in(workspace.documents[i].links()))
}

/// Whether `node` is the root of the project of document `start`.
pub open spec fn root_of(workspace: WorkspaceView, start: int, node: int) -> bool {
    is_root(include_graph(workspace), class_offsets(workspace), start, node)
}

/// The root of the project of document `start`.
pub open spec fn root_index(workspace: WorkspaceView, start: int) -> int {
    choose|node: int| root_of(workspace, start, node)
}

/// `paths` with `path` added, unless it is held, was attempted, or is among
/// `paths` already.
pub open spec fn noted(
    workspace: WorkspaceView,
    attempted: Seq<Seq<u8>>,
    paths: Seq<Seq<u8>>,
    path: Seq<u8>,
) -> Seq<Seq<u8>> {
    if workspace.has(path) || attempted.contains(path) || paths.contains(path) {
        paths
    } else {
        paths.push(path)
    }
}

/// `paths` with each of `options` noted, in order.
pub open spec fn noted_all(
    workspace: WorkspaceView,
    attempted: Seq<Seq<u8>>,
    paths: Seq<Seq<u8>>,
    options: Seq<Seq<u8>>,
) -> Seq<Seq<u8>>
    decreases options.len(),
{
    if options.len() == 0 {
        paths
    } else {
        noted(
            workspace,
            attempted,
            noted_all(workspace, attempted, paths, options.drop_last()),
            options.last(),
        )
    }
}

/// `paths` with the candidates noted of each of `links` of document `i` that
/// leads nowhere.
pub open spec fn missing_of(
    workspace: WorkspaceView,
    attempted: Seq<Seq<u8>>,
    paths: Seq<Seq<u8>>,
    i: int,
    links: Seq<Link>,
) -> Seq<Seq<u8>>
    decreases links.len(),
{
    if links.len() == 0 {
        paths
    } else {
        let before = missing_of(workspace, attempted, paths, i, links.drop_last());
        if resolve(workspace, i, links.last()) is None {
            noted_all(workspace, attempted, before, candidates_of(workspace, i, links.last()))
        } else {
            before
        }
    }
}

/// The files to look for after the first `count` documents were walked.
pub open spec fn missing_upto(workspace: WorkspaceView, attempted: Seq<Seq<u8>>, count: int) -> Seq<
    Seq<u8>,
>
    decreases count,
{
    if count <= 0 {
        Seq::empty()
    } else {
        missing_of(
            workspace,
            attempted,
            missing_upto(workspace, attempted, count - 1),
            count - 1,
            workspace.documents[count - 1].links(),
        )
    }
}

/// The files to look for on disk: the candidate locations of every include
/// that leads nowhere, but for those that were attempted, each once, in the
/// order in which the documents and their includes name them.
pub open spec fn missing(workspace: WorkspaceView, attempted: Seq<Seq<u8>>) -> Seq<Seq<u8>> {
    missing_upto(workspace, attempted, workspace.documents.len() as int)
}

/// Whether no path occurs twice, none is held, and none was attempted.
pub open spec fn fresh(workspace: WorkspaceView, attempted: Seq<Seq<u8>>, paths: Seq<Seq<u8>>) -> bool {
    &&& forall|j: int, k: int| 0 <= j < k < paths.len() ==> paths[j] != paths[k]
    &&& forall|k: int| 0 <= k < paths.len() ==> !workspace.has(#[trigger] paths[k])
    &&& forall|k: int| 0 <= k < paths.len() ==> !attempted.contains(#[trigger] paths[k])
}

proof fn lemma_noted_all_fresh(
    workspace: WorkspaceView,
    attempted: Seq<Seq<u8>>,
    paths: Seq<Seq<u8>>,
    options: Seq<Seq<u8>>,
)
    requires
        fresh(workspace, attempted, paths),
    ensures
        fresh(workspace, attempted, noted_all(workspace, attempted, paths, options)),
    decreases options.len(),
{
    if options.len() > 0 {
        lemma_noted_all_fresh(workspace, attempted, paths, options.drop_last());
    }
}

proof fn lemma_missing_of_fresh(
    workspace: WorkspaceView,
    attempted: Seq<Seq<u8>>,
    paths: Seq<Seq<u8>>,
    i: int,
    links: Seq<Link>,
)
    requires
        fresh(workspace, attempted, paths),
    ensures
        fresh(workspace, attempted, missing_of(workspace, attempted, paths, i, links)),
    decreases links.len(),
{
    if links.len() > 0 {
        lemma_missing_of_fresh(workspace, attempted, paths, i, links.drop_last());
        lemma_noted_all_fresh(
            workspace,
            attempted,
            missing_of(workspace, attempted, paths, i, links.drop_last()),
            candidates_of(workspace, i, links.last()),
        );
    }
}

proof fn lemma_missing_upto_fresh(workspace: WorkspaceView, attempted: Seq<Seq<u8>>, count: int)
    ensures
        fresh(workspace, attempted, missing_upto(workspace, attempted, count)),
    decreases count,
{
    if count > 0 {
        lemma_missing_upto_fresh(workspace, attempted, count - 1);
        lemma_missing_of_fresh(
            workspace,
            attempted,
            missing_upto(workspace, attempted, count - 1),
            count - 1,
            workspace.documents[count - 1].links(),
        );
    }
}

/// No file is looked for twice in one round: what discovery asks for holds no
/// path twice, no path that the workspace holds, and no path that was
/// attempted before. So a path that is recorded as attempted, or loaded, is
/// never asked for again.
pub proof fn lemma_missing_fresh(workspace: WorkspaceView, attempted: Seq<Seq<u8>>)
    ensures
        fresh(workspace, attempted, missing(workspace, attempted)),
{
    lemma_missing_upto_fresh(workspace, attempted, workspace.documents.len() as int);
}

/// Where one of `options` is held, `first_held` finds a document: the one at
/// that option, if none is held at an earlier one.
pub proof fn lemma_first_held_finds(documents: Seq<DocumentView>, options: Seq<Seq<u8>>, c: int)
    requires
        0 <= c < options.len(),
        index_from(documents, options[c], 0) is Some,
    ensures
        first_held(documents, options) matches Some(j) && 0 <= j < documents.len(),
        (forall|e: int| 0 <= e < c ==> index_from(documents, #[trigger] options[e], 0) is None)
            ==> first_held(documents, options) == index_from(documents, options[c], 0),
    decreases options.len(),
{
    crate::workspace::lemma_index_from(documents, options[0], 0);
    if index_from(documents, options[0], 0) is None {
        assert(c > 0);
        assert(options.drop_first()[c - 1] == options[c]);
        lemma_first_held_finds(documents, options.drop_first(), c - 1);
        if forall|e: int| 0 <= e < c ==> index_from(documents, #[trigger] options[e], 0) is None {
            assert forall|e: int| 0 <= e < c - 1 implies index_from(
                documents,
                #[trigger] options.drop_first()[e],
                0,
            ) is None by {
                assert(options.drop_first()[e] == options[e + 1]);
            }
        }
    }
}

/// The document that one of `links` leads to is among the targets.
pub proof fn lemma_targets_hold(workspace: WorkspaceView, i: int, links: Seq<Link>, k: int)
    requires
        0 <= k < links.len(),
        resolve(workspace, i, links[k]) is Some,
    ensures
        targets_of(workspace, i, links).contains(resolve(workspace, i, links[k])->0),
    decreases links.len(),
{
    let before = targets_of(workspace, i, links.drop_last());
    let all = targets_of(workspace, i, links);
    let j = resolve(workspace, i, links[k])->0;
    if k == links.len() - 1 {
        assert(all[before.len() as int] == j);
    } else {
        assert(links.drop_last()[k] == links[k]);
        lemma_targets_hold(workspace, i, links.drop_last(), k);
        let at = choose|at: int| 0 <= at < before.len() && before[at] == j;
        assert(all[at] == j);
    }
}

/// An include joins projects: where a document is held at one of the
/// locations that an include of document `i` may name, the include leads to
/// a document, and that document belongs to the project of `i`. It is the
/// document at that location, if none is held at an earlier one. So a file
/// that an include names is of the project from the moment it is held.
pub proof fn lemma_include_relates(workspace: WorkspaceView, i: int, k: int, c: int)
    requires
        0 <= i < workspace.documents.len() <= usize::MAX,
        0 <= k < workspace.documents[i].links().len(),
        0 <= c < candidates_of(workspace, i, workspace.documents[i].links()[k]).len(),
        workspace.has(candidates_of(workspace, i, workspace.documents[i].links()[k])[c]),
    ensures
        resolve(workspace, i, workspace.documents[i].links()[k]) matches Some(j) && related(
            workspace,
            i,
            j,
        ) && project_of(workspace, i).contains(j as usize),
        (forall|e: int|
            0 <= e < c ==> !workspace.has(
                #[trigger] candidates_of(workspace, i, workspace.documents[i].links()[k])[e],
            )) ==> resolve(workspace, i, workspace.documents[i].links()[k]) == workspace.index_of(
            candidates_of(workspace, i, workspace.documents[i].links()[k])[c],
        ),
{
    let link = workspace.documents[i].links()[k];
    let options = candidates_of(workspace, i, link);
    lemma_first_held_finds(workspace.documents, options, c);
    let j = resolve(workspace, i, link)->0;
    lemma_targets_hold(workspace, i, workspace.documents[i].links(), k);
    let graph = include_graph(workspace);
    assert(graph[i] == targets(workspace, i));
    assert(crate::graph::edge(graph, i, j));
    crate::graph::lemma_connected_reflexive(graph, i);
    crate::graph::lemma_connected_step(graph, i, i, j);
    crate::graph::lemma_members_upto_hold(graph, i, graph.len() as int, j);
}

/// A document without a share in any include is a project of its own: where
/// it includes no document and no other document includes it, it is related
/// to itself alone. So a document leaves a project when the last include
/// that joined it to the project goes.
pub proof fn lemma_unlinked_is_alone(workspace: WorkspaceView, i: int, b: int)
    requires
        targets(workspace, i).len() == 0,
        forall|a: int|
            0 <= a < workspace.documents.len() && a != i ==> !(#[trigger] targets(
                workspace,
                a,
            )).contains(i),
        related(workspace, i, b),
    ensures
        b == i,
{
    let graph = include_graph(workspace);
    assert forall|c: int| c != i implies !#[trigger] crate::graph::adjacent(graph, i, c) by {
        if crate::graph::edge(graph, i, c) {
            assert(graph[i] == targets(workspace, i));
        }
        if crate::graph::edge(graph, c, i) {
            assert(graph[c] == targets(workspace, c));
        }
    }
    crate::graph::lemma_unjoined_is_alone(graph, i, b);
}

/// Whether two workspaces hold the same texts under the same URIs, read as
/// the same languages, and search the same directories. Owners, cursors and
/// revisions may differ.
pub open spec fn same_sources(a: WorkspaceView, b: WorkspaceView) -> bool {
    &&& a.roots == b.roots
    &&& a.distro == b.distro
    &&& a.documents.len() == b.documents.len()
    &&& forall|k: int|
        0 <= k < a.documents.len() ==> (#[trigger] a.documents[k]).uri == b.documents[k].uri
            && a.documents[k].text == b.documents[k].text && a.documents[k].language
            == b.documents[k].language
}

proof fn lemma_index_from_same(a: WorkspaceView, b: WorkspaceView, uri: Seq<u8>, from: int)
    requires
        same_sources(a, b),
        0 <= from,
    ensures
        index_from(a.documents, uri, from) == index_from(b.documents, uri, from),
    decreases a.documents.len() - from,
{
    if from < a.documents.len() {
        assert(a.documents[from].uri == b.documents[from].uri);
        if a.documents[from].uri != uri {
            lemma_index_from_same(a, b, uri, from + 1);
        }
    }
}

proof fn lemma_first_held_same(a: WorkspaceView, b: WorkspaceView, options: Seq<Seq<u8>>)
    requires
        same_sources(a, b),
    ensures
        first_held(a.documents, options) == first_held(b.documents, options),
    decreases options.len(),
{
    if options.len() > 0 {
        lemma_index_from_same(a, b, options[0], 0);
        lemma_first_held_same(a, b, options.drop_first());
    }
}

proof fn lemma_targets_of_same(a: WorkspaceView, b: WorkspaceView, i: int, links: Seq<Link>)
    requires
        same_sources(a, b),
        0 <= i < a.documents.len(),
    ensures
        targets_of(a, i, links) == targets_of(b, i, links),
    decreases links.len(),
{
    if links.len() > 0 {
        lemma_targets_of_same(a, b, i, links.drop_last());
        assert(a.documents[i].uri == b.documents[i].uri);
        assert(candidates_of(a, i, links.last()) == candidates_of(b, i, links.last()));
        lemma_first_held_same(a, b, candidates_of(a, i, links.last()));
    }
}

/// The include graph and the places of the class declarations depend on the
/// URIs, texts and languages of the documents and on the search directories
/// alone: a change of an owner or a cursor leaves them as they are.
pub proof fn lemma_graph_of_sources(a: WorkspaceView, b: WorkspaceView)
    requires
        same_sources(a, b),
    ensures
        include_graph(a) == include_graph(b),
        class_offsets(a) == class_offsets(b),
{
    assert forall|i: int| 0 <= i < a.documents.len() implies targets(a, i) == targets(b, i) by {
        assert(a.documents[i].uri == b.documents[i].uri);
        assert(a.documents[i].links() == b.documents[i].links());
        lemma_targets_of_same(a, b, i, a.documents[i].links());
    }
    assert(include_graph(a) =~= include_graph(b));
    assert forall|i: int| 0 <= i < a.documents.len() implies class_offsets(a)[i] == class_offsets(
        b,
    )[i] by {
        assert(a.documents[i].uri == b.documents[i].uri);
        assert(a.documents[i].links() == b.documents[i].links());
    }
    assert(class_offsets(a) =~= class_offsets(b));
}

/// Every document belongs to its own project.
pub proof fn lemma_related_reflexive(workspace: WorkspaceView, a: int)
    requires
        0 <= a < workspace.documents.len(),
    ensures
        related(workspace, a, a),
{
    lemma_connected_reflexive(include_graph(workspace), a);
}

/// If `a` belongs to the project of `b`, then `b` belongs to the project of
/// `a`.
pub proof fn lemma_related_symmetric(workspace: WorkspaceView, a: int, b: int)
    requires
        related(workspace, a, b),
    ensures
        related(workspace, b, a),
{
    lemma_connected_symmetric(include_graph(workspace), a, b);
}

/// If `a` and `b` belong to one project, and `b` and `c` do, then `a` and `c`
/// do.
pub proof fn lemma_related_transitive(workspace: WorkspaceView, a: int, b: int, c: int)
    requires
        related(workspace, a, b),
        related(workspace, b, c),
    ensures
        related(workspace, a, c),
{
    lemma_connected_transitive(include_graph(workspace), a, b, c);
}

/// The root of a document's project belongs to that project.
pub proof fn lemma_root_related(workspace: WorkspaceView, start: int, node: int)
    requires
        0 <= start < workspace.documents.len(),
        root_of(workspace, start, node),
    ensures
        related(workspace, start, node),
{
    crate::graph::lemma_root_connected(
        include_graph(workspace),
        class_offsets(workspace),
        start,
        node,
    );
}

/// `path` with `suffix` appended.
fn with_suffix(path: &[u8], suffix: &str) -> (name: Vec<u8>)
    ensures
        name@ == path@ + bytes_of(suffix),
{
    let mut name = copy_range(path, 0, path.len());
    let tail = suffix.as_bytes();
    extend_range(&mut name, tail, 0, tail.len());
    assert(path@.subrange(0, path@.len() as int) =~= path@);
    assert(tail@.subrange(0, tail@.len() as int) =~= tail@);
    name
}

/// `name` within `directory`, in normal form.
fn located(directory: &[u8], name: &[u8]) -> (path: Vec<u8>)
    ensures
        path@ == normalized(join(directory@, name@)),
        is_normal(path@),
{
    let path = joined(directory, name);
    normalize(path.as_slice())
}

/// `name` within `directory`.
fn joined(directory: &[u8], name: &[u8]) -> (path: Vec<u8>)
    ensures
        path@ == join(directory@, name@),
{
    let mut path = copy_range(directory, 0, directory.len());
    assert(directory@.subrange(0, directory@.len() as int) =~= directory@);
    if directory.len() > 0 && directory[directory.len() - 1] != SLASH {
        path.push(SLASH);
    }
    extend_range(&mut path, name, 0, name.len());
    assert(name@.subrange(0, name@.len() as int) =~= name@);
    path
}

/// Appends the locations of `name` to `found`.
fn push_locations(
    found: &mut Vec<Vec<u8>>,
    base: &[u8],
    distro: &Vec<(Vec<u8>, Vec<u8>)>,
    roots: &Vec<Vec<u8>>,
    name: &[u8],
)
    requires
        all_normal(paths_of(old(found)@)),
    ensures
        paths_of(final(found)@) == paths_of(old(found)@) + locations(
            base@,
            files_of(distro@),
            paths_of(roots@),
            name@,
        ),
        all_normal(paths_of(final(found)@)),
{
    let ghost before = paths_of(found@);
    if name.len() > 0 && name[0] == SLASH {
        found.push(normalize(name));
        assert(paths_of(found@) =~= before + seq![normalized(name@)]);
        assert forall|k: int| 0 <= k < paths_of(found@).len() implies is_normal(
            #[trigger] paths_of(found@)[k],
        ) by {
            if k < before.len() {
                assert(paths_of(found@)[k] == before[k]);
            }
        }
        return ;
    }
    let size = base.len();
    proof {
        lemma_find_last(base@, size as int, SLASH);
    }
    let end = match last_index_of(base, SLASH) {
        Some(slash) => slash + 1,
        None => 0,
    };
    let directory = slice_subrange(base, 0, end);
    found.push(located(directory, name));
    let ghost first = normalized(join(directory_of(base@), name@));
    assert(paths_of(found@) =~= before + seq![first]);
    let ghost files = files_of(distro@);
    let mut f: usize = 0;
    while f < distro.len()
        invariant
            0 <= f <= distro@.len(),
            files == files_of(distro@),
            all_normal(paths_of(found@)),
            paths_of(found@) == before + seq![first] + shipped(files, name@, f as int),
        decreases distro@.len() - f,
    {
        let ghost held = paths_of(found@);
        if bytes_same(distro[f].0.as_slice(), name) {
            found.push(normalize(distro[f].1.as_slice()));
            assert(paths_of(found@) =~= held.push(normalized(files[f as int].1)));
            assert forall|k: int| 0 <= k < paths_of(found@).len() implies is_normal(
                #[trigger] paths_of(found@)[k],
            ) by {
                if k < held.len() {
                    assert(paths_of(found@)[k] == held[k]);
                }
            }
        }
        assert(paths_of(found@) =~= before + seq![first] + shipped(files, name@, f + 1));
        f += 1;
    }
    let ghost middle = paths_of(found@);
    let ghost all = rooted(paths_of(roots@), name@);
    let mut k: usize = 0;
    while k < roots.len()
        invariant
            0 <= k <= roots@.len(),
            all == rooted(paths_of(roots@), name@),
            all_normal(middle),
            forall|j: int| 0 <= j < k ==> is_normal(#[trigger] all[j]),
            paths_of(found@) == middle + all.take(k as int),
        decreases roots@.len() - k,
    {
        let ghost held = paths_of(found@);
        found.push(located(roots[k].as_slice(), name));
        assert(paths_of(found@) =~= held.push(all[k as int]));
        assert(all.take(k + 1) =~= all.take(k as int).push(all[k as int]));
        k += 1;
    }
    assert(all.take(k as int) =~= all);
    assert(middle + all =~= before + (seq![first] + shipped(files, name@, files.len() as int) + all));
    assert forall|j: int| 0 <= j < paths_of(found@).len() implies is_normal(
        #[trigger] paths_of(found@)[j],
    ) by {
        let whole = middle + all;
        if j < middle.len() {
            assert(whole[j] == middle[j]);
        } else {
            assert(whole[j] == all[j - middle.len()]);
        }
    }
}

/// Where the file that an include names may be, in the order of search.
pub fn candidates_for(
    base: &[u8],
    distro: &Vec<(Vec<u8>, Vec<u8>)>,
    roots: &Vec<Vec<u8>>,
    path: &[u8],
    kind: LinkKind,
) -> (found: Vec<Vec<u8>>)
    ensures
        paths_of(found@) == candidates(base@, files_of(distro@), paths_of(roots@), path@, kind),
        all_normal(paths_of(found@)),
{
    let mut found: Vec<Vec<u8>> = Vec::new();
    assert(paths_of(found@) =~= Seq::<Seq<u8>>::empty());
    let ghost sought = candidates(base@, files_of(distro@), paths_of(roots@), path@, kind);
    match kind {
        LinkKind::Package => {
            let name = with_suffix(path, ".sty");
            push_locations(&mut found, base, distro, roots, name.as_slice());
            assert(paths_of(found@) =~= sought);
        },
        LinkKind::Class => {
            let name = with_suffix(path, ".cls");
            push_locations(&mut found, base, distro, roots, name.as_slice());
            assert(paths_of(found@) =~= sought);
        },
        LinkKind::Graphic => {
            push_locations(&mut found, base, distro, roots, path);
            assert(paths_of(found@) =~= sought);
        },
        LinkKind::Latex | LinkKind::Bibliography => {
            push_locations(&mut found, base, distro, roots, path);
            proof {
                lemma_find_last(path@, path@.len() as int, DOT);
                lemma_find_last(path@, path@.len() as int, SLASH);
            }
            let dotted = match last_index_of(path, DOT) {
                Some(dot) => match last_index_of(path, SLASH) {
                    Some(slash) => dot > slash,
                    None => true,
                },
                None => false,
            };
            if !dotted {
                let name = match kind {
                    LinkKind::Latex => with_suffix(path, ".tex"),
                    _ => with_suffix(path, ".bib"),
                };
                push_locations(&mut found, base, distro, roots, name.as_slice());
            }
            assert(paths_of(found@) =~= sought);
        },
    }
    found
}

impl Workspace {
    /// The index of the document at the first of `options` that is held.
    pub fn first_held(&self, options: &Vec<Vec<u8>>) -> (found: Option<usize>)
        requires
            self.wf(),
        ensures
            match found {
                Some(i) => first_held(self@.documents, paths_of(options@)) == Some(i as int) && i
                    < self@.documents.len(),
                None => first_held(self@.documents, paths_of(options@)) is None,
            },
    {
        let ghost all = paths_of(options@);
        let mut k: usize = 0;
        assert(all.skip(0) =~= all);
        while k < options.len()
            invariant
                self.wf(),
                0 <= k <= options@.len(),
                all == paths_of(options@),
                first_held(self@.documents, all.skip(k as int)) == first_held(self@.documents, all),
            decreases options@.len() - k,
        {
            assert(all.skip(k as int)[0] == options@[k as int]@);
            assert(all.skip(k as int).drop_first() =~= all.skip(k + 1));
            match self.lookup(options[k].as_slice()) {
                Some(i) => {
                    return Some(i);
                },
                None => {},
            }
            k += 1;
        }
        assert(all.skip(k as int) =~= Seq::<Seq<u8>>::empty());
        None
    }

    /// Where the file that an include of document `i` names may be.
    pub fn candidates_of(&self, i: usize, link: &Link) -> (found: Vec<Vec<u8>>)
        requires
            self.wf(),
            i < self@.documents.len(),
            link.path.start <= link.path.end <= self@.documents[i as int].text.len(),
        ensures
            paths_of(found@) == candidates_of(self@, i as int, *link),
            all_normal(paths_of(found@)),
    {
        let document = self.document(i);
        let path = slice_subrange(document.text().as_slice(), link.path.start, link.path.end);
        candidates_for(document.uri().as_slice(), self.distro(), self.roots(), path, link.kind)
    }

    /// The index of the document that an include of document `i` leads to: the
    /// first of its candidate locations that is held. An include whose file is
    /// not held leads nowhere, which is no error.
    pub fn resolve(&self, i: usize, link: &Link) -> (found: Option<usize>)
        requires
            self.wf(),
            i < self@.documents.len(),
            link.path.start <= link.path.end <= self@.documents[i as int].text.len(),
        ensures
            match found {
                Some(j) => resolve(self@, i as int, *link) == Some(j as int) && j
                    < self@.documents.len(),
                None => resolve(self@, i as int, *link) is None,
            },
    {
        let options = self.candidates_of(i, link);
        self.first_held(&options)
    }

    /// The documents that document `i` includes, in the order of its includes.
    pub fn targets(&self, i: usize) -> (found: Vec<usize>)
        requires
            self.wf(),
            i < self@.documents.len(),
        ensures
            Seq::new(found@.len(), |k: int| found@[k] as int) == targets(self@, i as int),
            forall|k: int| 0 <= k < found@.len() ==> #[trigger] found@[k] < self@.documents.len(),
    {
        let links = self.document(i).links();
        let mut found: Vec<usize> = Vec::new();
        let mut k: usize = 0;
        assert(links@.take(0) =~= Seq::<Link>::empty());
        assert(Seq::new(found@.len(), |k: int| found@[k] as int) =~= Seq::<int>::empty());
        while k < links.len()
            invariant
                self.wf(),
                i < self@.documents.len(),
                links@ == self@.documents[i as int].links(),
                crate::analysis::links_within(links@, self@.documents[i as int].text.len() as int),
                0 <= k <= links@.len(),
                Seq::new(found@.len(), |k: int| found@[k] as int) == targets_of(
                    self@,
                    i as int,
                    links@.take(k as int),
                ),
                forall|j: int| 0 <= j < found@.len() ==> #[trigger] found@[j] < self@.documents.len(),
            decreases links@.len() - k,
        {
            assert(links@.take(k + 1).drop_last() =~= links@.take(k as int));
            assert(links@.take(k + 1).last() == links@[k as int]);
            let ghost before = Seq::new(found@.len(), |k: int| found@[k] as int);
            let link = &links[k];
            assert(links@[k as int].path.end <= self@.documents[i as int].text.len());
            match self.resolve(i, link) {
                Some(j) => {
                    found.push(j);
                    assert(Seq::new(found@.len(), |k: int| found@[k] as int) =~= before.push(
                        j as int,
                    ));
                },
                None => {},
            }
            k += 1;
        }
        assert(links@.take(k as int) =~= links@);
        found
    }

    /// The includes of document `i` that lead to a document, for editors to
    /// follow: where each stands, and where it leads.
    pub fn document_links(&self, i: usize) -> (found: Vec<DocumentLink>)
        requires
            self.wf(),
            i < self@.documents.len(),
        ensures
            found@ == document_links_of(self@, i as int, self@.documents[i as int].links()),
            forall|k: int| 0 <= k < found@.len() ==> (#[trigger] found@[k]).target < self@.documents.len(),
    {
        let document = self.document(i);
        let links = document.links();
        let mut found: Vec<DocumentLink> = Vec::new();
        let mut k: usize = 0;
        assert(links@.take(0) =~= Seq::<Link>::empty());
        while k < links.len()
            invariant
                self.wf(),
                i < self@.documents.len(),
                document.wf(),
                document@ == self@.documents[i as int],
                links@ == self@.documents[i as int].links(),
                crate::analysis::links_within(links@, self@.documents[i as int].text.len() as int),
                0 <= k <= links@.len(),
                found@ == document_links_of(self@, i as int, links@.take(k as int)),
                forall|j: int|
                    0 <= j < found@.len() ==> (#[trigger] found@[j]).target < self@.documents.len(),
            decreases links@.len() - k,
        {
            assert(links@.take(k + 1).drop_last() =~= links@.take(k as int));
            assert(links@.take(k + 1).last() == links@[k as int]);
            let link = &links[k];
            assert(links@[k as int].path.end <= self@.documents[i as int].text.len());
            match self.resolve(i, link) {
                Some(target) => {
                    let range = PositionRange {
                        start: document.position_at(link.path.start),
                        end: document.position_at(link.path.end),
                    };
                    found.push(DocumentLink { range, target });
                },
                None => {},
            }
            k += 1;
        }
        assert(links@.take(k as int) =~= links@);
        found
    }

    /// The include graph: for each document, the documents that it includes.
    pub fn edges(&self) -> (lists: Vec<Vec<usize>>)
        requires
            self.wf(),
        ensures
            graph_of(lists@) == include_graph(self@),
            lists@.len() == self@.documents.len(),
    {
        let mut lists: Vec<Vec<usize>> = Vec::new();
        let mut i: usize = 0;
        while i < self.len()
            invariant
                self.wf(),
                0 <= i <= self@.documents.len(),
                lists@.len() == i,
                forall|a: int|
                    0 <= a < i ==> Seq::new(
                        (#[trigger] lists@[a])@.len(),
                        |k: int| lists@[a]@[k] as int,
                    ) == targets(self@, a),
            decreases self@.documents.len() - i,
        {
            let list = self.targets(i);
            lists.push(list);
            i += 1;
        }
        assert(graph_of(lists@) =~= include_graph(self@)) by {
            assert forall|a: int| 0 <= a < lists@.len() implies graph_of(lists@)[a] == include_graph(
                self@,
            )[a] by {
                assert(Seq::new(lists@[a]@.len(), |k: int| lists@[a]@[k] as int) == targets(self@, a));
            }
        }
        lists
    }

    /// The documents of the project of document `start`, in increasing order
    /// of their index.
    pub fn related(&self, start: usize) -> (members: Vec<usize>)
        requires
            self.wf(),
            start < self@.documents.len(),
        ensures
            forall|j: int, k: int| 0 <= j < k < members@.len() ==> members@[j] < members@[k],
            forall|k: int|
                0 <= k < members@.len() ==> related(self@, start as int, #[trigger] members@[k] as int),
            forall|b: int|
                related(self@, start as int, b) ==> exists|k: int|
                    0 <= k < members@.len() && #[trigger] members@[k] == b,
            forall|k: int| 0 <= k < members@.len() ==> #[trigger] members@[k] < self@.documents.len(),
            members@ == project_of(self@, start as int),
    {
        match self.cached_graph() {
            Some((lists, _)) => component(lists, start),
            None => {
                let lists = self.edges();
                component(&lists, start)
            },
        }
    }

    /// Computes the include graph of the workspace as it is and keeps it, so
    /// that projects and roots are read off it until the next mutation of a
    /// text, of the set of documents or of the search directories. Nothing
    /// that the workspace holds changes.
    pub fn refresh(&mut self)
        requires
            old(self).wf(),
        ensures
            final(self).wf(),
            final(self)@ == old(self)@,
            final(self).graph_is_current(),
    {
        if !self.graph_is_current() {
            let lists = self.edges();
            let classes = self.class_offsets();
            self.keep_graph(lists, classes);
        }
    }

    /// For each document, where it declares its document class.
    pub fn class_offsets(&self) -> (offsets: Vec<Option<usize>>)
        requires
            self.wf(),
        ensures
            classes_of(offsets@) == class_offsets(self@),
            offsets@.len() == self@.documents.len(),
    {
        let mut offsets: Vec<Option<usize>> = Vec::new();
        let mut i: usize = 0;
        while i < self.len()
            invariant
                self.wf(),
                0 <= i <= self@.documents.len(),
                offsets@.len() == i,
                forall|a: int|
                    0 <= a < i ==> classes_of(offsets@)[a] == class_offset_in(
                        self@.documents[a].links(),
                    ),
            decreases self@.documents.len() - i,
        {
            let links = self.document(i).links();
            let mut found: Option<usize> = None;
            let mut k: usize = 0;
            assert(links@.take(0) =~= Seq::<Link>::empty());
            while k < links.len()
                invariant
                    0 <= k <= links@.len(),
                    match found {
                        Some(offset) => class_offset_in(links@.take(k as int)) == Some(offset as int),
                        None => class_offset_in(links@.take(k as int)) is None,
                    },
                decreases links@.len() - k,
            {
                assert(links@.take(k + 1).drop_last() =~= links@.take(k as int));
                assert(links@.take(k + 1).last() == links@[k as int]);
                if found.is_none() && links[k].kind == LinkKind::Class {
                    found = Some(links[k].path.start);
                }
                k += 1;
            }
            assert(links@.take(k as int) =~= links@);
            let ghost before = classes_of(offsets@);
            offsets.push(found);
            assert forall|a: int| 0 <= a < i + 1 implies classes_of(offsets@)[a] == class_offset_in(
                self@.documents[a].links(),
            ) by {
                if a < i {
                    assert(classes_of(offsets@)[a] == before[a]);
                }
            }
            i += 1;
        }
        assert(classes_of(offsets@) =~= class_offsets(self@));
        offsets
    }

    /// The root of the project of document `start`: the only member that no
    /// other document includes; failing that, the member that declares a
    /// document class nearest to the top of its text; failing that, `start`.
    pub fn root(&self, start: usize) -> (node: usize)
        requires
            self.wf(),
            start < self@.documents.len(),
        ensures
            node < self@.documents.len(),
            root_of(self@, start as int, node as int),
            node == root_index(self@, start as int),
            related(self@, start as int, node as int),
    {
        let node = match self.cached_graph() {
            Some((lists, offsets)) => root(lists, offsets, start),
            None => {
                let lists = self.edges();
                let offsets = self.class_offsets();
                root(&lists, &offsets, start)
            },
        };
        proof {
            assert(root_of(self@, start as int, node as int));
            assert(root_of(self@, start as int, root_index(self@, start as int)));
            crate::graph::lemma_root_unique(
                include_graph(self@),
                class_offsets(self@),
                start as int,
                node as int,
                root_index(self@, start as int),
            );
        }
        node
    }

    /// The files to look for on disk, given those that were looked for in this
    /// round already. Each file that is found is then handed to `open` as a
    /// document of the server; each one that is not is added to `attempted`.
    pub fn discover(&self, attempted: &Vec<Vec<u8>>) -> (paths: Vec<Vec<u8>>)
        requires
            self.wf(),
        ensures
            paths_of(paths@) == missing(self@, paths_of(attempted@)),
            fresh(self@, paths_of(attempted@), paths_of(paths@)),
            all_normal(paths_of(paths@)),
    {
        let ghost tried = paths_of(attempted@);
        let mut paths: Vec<Vec<u8>> = Vec::new();
        assert(paths_of(paths@) =~= Seq::<Seq<u8>>::empty());
        let mut i: usize = 0;
        while i < self.len()
            invariant
                self.wf(),
                tried == paths_of(attempted@),
                0 <= i <= self@.documents.len(),
                paths_of(paths@) == missing_upto(self@, tried, i as int),
                all_normal(paths_of(paths@)),
            decreases self@.documents.len() - i,
        {
            let links = self.document(i).links();
            let mut k: usize = 0;
            assert(links@.take(0) =~= Seq::<Link>::empty());
            let ghost start = paths_of(paths@);
            while k < links.len()
                invariant
                    self.wf(),
                    tried == paths_of(attempted@),
                    i < self@.documents.len(),
                    links@ == self@.documents[i as int].links(),
                    crate::analysis::links_within(
                        links@,
                        self@.documents[i as int].text.len() as int,
                    ),
                    0 <= k <= links@.len(),
                    paths_of(paths@) == missing_of(self@, tried, start, i as int, links@.take(k as int)),
                    all_normal(paths_of(paths@)),
                decreases links@.len() - k,
            {
                assert(links@.take(k + 1).drop_last() =~= links@.take(k as int));
                assert(links@.take(k + 1).last() == links@[k as int]);
                let link = &links[k];
                assert(links@[k as int].path.end <= self@.documents[i as int].text.len());
                let options = self.candidates_of(i, link);
                if self.first_held(&options).is_none() {
                    self.note_all(attempted, &mut paths, options);
                }
                k += 1;
            }
            assert(links@.take(k as int) =~= links@);
            i += 1;
        }
        proof {
            lemma_missing_fresh(self@, tried);
        }
        paths
    }

    /// Notes each of `options` in `paths`.
    fn note_all(&self, attempted: &Vec<Vec<u8>>, paths: &mut Vec<Vec<u8>>, options: Vec<Vec<u8>>)
        requires
            self.wf(),
            all_normal(paths_of(old(paths)@)),
            all_normal(paths_of(options@)),
        ensures
            paths_of(final(paths)@) == noted_all(
                self@,
                paths_of(attempted@),
                paths_of(old(paths)@),
                paths_of(options@),
            ),
            all_normal(paths_of(final(paths)@)),
    {
        let ghost tried = paths_of(attempted@);
        let ghost all = paths_of(options@);
        let ghost start = paths_of(paths@);
        let mut c: usize = 0;
        assert(all.take(0) =~= Seq::<Seq<u8>>::empty());
        while c < options.len()
            invariant
                self.wf(),
                tried == paths_of(attempted@),
                all == paths_of(options@),
                0 <= c <= options@.len(),
                paths_of(paths@) == noted_all(self@, tried, start, all.take(c as int)),
                all_normal(paths_of(paths@)),
                all_normal(all),
            decreases options@.len() - c,
        {
            assert(all.take(c + 1).drop_last() =~= all.take(c as int));
            assert(all.take(c + 1).last() == options@[c as int]@);
            let option = &options[c];
            let ghost before = paths_of(paths@);
            if self.lookup(option.as_slice()).is_none() && !listed(attempted, option.as_slice())
                && !listed(paths, option.as_slice()) {
                assert(option@.subrange(0, option@.len() as int) =~= option@);
                paths.push(copy_range(option.as_slice(), 0, option.len()));
                assert(paths_of(paths@) =~= before.push(option@));
                assert(is_normal(all[c as int]));
                assert forall|j: int| 0 <= j < paths_of(paths@).len() implies is_normal(
                    #[trigger] paths_of(paths@)[j],
                ) by {
                    if j < before.len() {
                        assert(paths_of(paths@)[j] == before[j]);
                    }
                }
            }
            c += 1;
        }
        assert(all.take(c as int) =~= all);
    }
}

/// Whether `path` is among `paths`.
pub fn listed(paths: &Vec<Vec<u8>>, path: &[u8]) -> (found: bool)
    ensures
        found == paths_of(paths@).contains(path@),
{
    let ghost all = paths_of(paths@);
    let mut k: usize = 0;
    while k < paths.len()
        invariant
            0 <= k <= paths@.len(),
            all == paths_of(paths@),
            forall|j: int| 0 <= j < k ==> all[j] != path@,
        decreases paths@.len() - k,
    {
        if bytes_same(paths[k].as_slice(), path) {
            assert(all[k as int] == path@);
            return true;
        }
        k += 1;
    }
    false
}

} // verus!
