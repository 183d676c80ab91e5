//! What is shown beside a completion item once the editor asks for it.

use crate::analysis::{
    classify, items, labels, labels_in, tag_of, words_tagged, Item, Label, LabelKind, Tag,
};
use crate::bibtex::{entries, entry_within, Entry};
use crate::bytes::copy_range;
use crate::citation::{
    describes_work, find_entry, is_reference, keyed_from, render, rendered,
};
use crate::components::{entry_from, ComponentDatabase};
use crate::document::{Document, DocumentView, Language};
use crate::project::project_of;
use crate::syntax::{command_within, commands, parse_tex, Command};
use crate::text::{offset_of, Position, Span};
use crate::uri::{normalize, normalized};
use crate::workspace::{paths_of, Workspace, WorkspaceView};
use vstd::prelude::*;

verus! {

/// The most items that one completion list holds.
pub const COMPLETION_LIMIT: usize = 50;

/// What a completion item stands for, as far as it matters for resolving it.
pub enum CompletionItemData {
    Package,
    Class,
    Citation { uri: Vec<u8>, key: Vec<u8> },
    Other,
}

/// A text to show beside a completion item.
pub enum Documentation {
    PlainText(String),
    Markdown(Vec<u8>),
}

/// What resolving a completion item does to its documentation.
pub enum Resolved {
    /// The item stays as it is.
    Unchanged,
    /// The documentation of the item is this from now on.
    Replaced(Option<Documentation>),
}

/// A documentation, as plain values.
pub ghost enum DocumentationView {
    PlainText(Seq<char>),
    Markdown(Seq<u8>),
}

/// What resolving does, as plain values.
pub ghost enum ResolvedView {
    Unchanged,
    Replaced(Option<DocumentationView>),
}

impl View for Resolved {
    type V = ResolvedView;

    open spec fn view(&self) -> ResolvedView {
        match self {
            Resolved::Unchanged => ResolvedView::Unchanged,
            Resolved::Replaced(None) => ResolvedView::Replaced(None),
            Resolved::Replaced(Some(Documentation::PlainText(text))) => ResolvedView::Replaced(
                Some(DocumentationView::PlainText(text@)),
            ),
            Resolved::Replaced(Some(Documentation::Markdown(text))) => ResolvedView::Replaced(
                Some(DocumentationView::Markdown(text@)),
            ),
        }
    }
}

/// The description of the package or class of this name.
pub open spec fn described(database: ComponentDatabase, label: Seq<char>) -> Option<
    DocumentationView,
> {
    match entry_from(database.metadata@, label, 0) {
        Some(i) => match database.metadata@[i].description {
            Some(description) => Some(DocumentationView::PlainText(description@)),
            None => None,
        },
        None => None,
    }
}

/// The rendering of the entry with this key in a bibliography.
pub open spec fn cited(text: Seq<u8>, key: Seq<u8>) -> Option<DocumentationView> {
    match keyed_from(text, entries(text), key, 0) {
        Some(k) => match rendered(text, entries(text)[k]) {
            Some(shown) => Some(DocumentationView::Markdown(shown)),
            None => None,
        },
        None => None,
    }
}

/// What resolving a completion item does. A package or a class gets the
/// description that the database has for its label, as plain text, or none.
/// A citation gets the rendering of its entry, as Markdown, or none, if its
/// bibliography is held; otherwise it stays as it is, as does any other item.
pub open spec fn resolved(
    workspace: WorkspaceView,
    database: ComponentDatabase,
    label: Seq<char>,
    data: CompletionItemData,
) -> ResolvedView {
    match data {
        CompletionItemData::Package | CompletionItemData::Class => ResolvedView::Replaced(
            described(database, label),
        ),
        CompletionItemData::Citation { uri, key } => match workspace.index_of(uri@) {
            Some(i) => if workspace.documents[i].language == Language::Bib {
                ResolvedView::Replaced(cited(workspace.documents[i].text, key@))
            } else {
                ResolvedView::Unchanged
            },
            None => ResolvedView::Unchanged,
        },
        CompletionItemData::Other => ResolvedView::Unchanged,
    }
}

/// Resolves a completion item: finds what is shown beside it.
pub fn completion_resolve(
    workspace: &Workspace,
    database: &ComponentDatabase,
    label: &str,
    data: &CompletionItemData,
) -> (outcome: Resolved)
    requires
        workspace.wf(),
    ensures
        outcome@ == resolved(workspace@, *database, label@, *data),
{
    match data {
        CompletionItemData::Package | CompletionItemData::Class => {
            match database.documentation(label) {
                Some(content) => Resolved::Replaced(Some(Documentation::PlainText(content.value))),
                None => Resolved::Replaced(None),
            }
        },
        CompletionItemData::Citation { uri, key } => {
            match workspace.lookup(uri.as_slice()) {
                Some(i) => {
                    let document = workspace.document(i);
                    if document.language() == Language::Bib {
                        let text = document.text().as_slice();
                        match find_entry(text, document.entries(), key.as_slice()) {
                            Some(entry) => match render(text, &entry) {
                                Some(shown) => Resolved::Replaced(
                                    Some(Documentation::Markdown(shown)),
                                ),
                                None => Resolved::Replaced(None),
                            },
                            None => Resolved::Replaced(None),
                        }
                    } else {
                        Resolved::Unchanged
                    }
                },
                None => Resolved::Unchanged,
            }
        },
        CompletionItemData::Other => Resolved::Unchanged,
    }
}

/// What a completion item names.
#[derive(Debug, PartialEq, Eq, Clone, Copy, Structural)]
pub enum CompletionKind {
    Citation,
    Label,
    Environment,
}

/// A completion item: the text to insert, and what it names.
#[derive(Debug, PartialEq, Eq, Clone)]
pub struct CompletionItem {
    pub label: Vec<u8>,
    pub kind: CompletionKind,
}

/// The items offered at a position. The list is incomplete where more items
/// were found than one list holds.
#[derive(Debug, PartialEq, Eq, Clone)]
pub struct CompletionList {
    pub is_incomplete: bool,
    pub items: Vec<CompletionItem>,
}

/// Whether the argument of a command holds the offset.
pub open spec fn holds_offset(command: Command, offset: int) -> bool {
    command.argument matches Some(argument) && argument.start <= offset <= argument.end
}

/// The last of the first `count` commands whose argument holds the offset:
/// the innermost one.
pub open spec fn innermost(found: Seq<Command>, offset: int, count: int) -> Option<Command>
    decreases count,
{
    if count <= 0 {
        None
    } else if holds_offset(found[count - 1], offset) {
        Some(found[count - 1])
    } else {
        innermost(found, offset, count - 1)
    }
}

/// What is completed at an offset of a TeX source: what the innermost command
/// around the offset says of its argument.
pub open spec fn context_at(text: Seq<u8>, offset: int) -> Option<CompletionKind> {
    match innermost(commands(text), offset, commands(text).len() as int) {
        Some(command) => match tag_of(
            text.subrange(command.name.start as int, command.name.end as int),
        ) {
            Some(Tag::Citation) => Some(CompletionKind::Citation),
            Some(Tag::Label(LabelKind::Reference)) => Some(CompletionKind::Label),
            Some(Tag::Environment) => Some(CompletionKind::Environment),
            _ => None,
        },
        None => None,
    }
}

/// The keys of the first `count` entries that describe a work.
pub open spec fn keys(text: Seq<u8>, all: Seq<Entry>, count: int) -> Seq<Seq<u8>>
    decreases count,
{
    if count <= 0 {
        Seq::empty()
    } else {
        let before = keys(text, all, count - 1);
        let entry = all[count - 1];
        if is_reference(text, entry) {
            before.push(text.subrange(entry.key.start as int, entry.key.end as int))
        } else {
            before
        }
    }
}

/// The names of the first `count` labels that are definitions.
pub open spec fn defined_labels(text: Seq<u8>, all: Seq<Label>, count: int) -> Seq<Seq<u8>>
    decreases count,
{
    if count <= 0 {
        Seq::empty()
    } else {
        let before = defined_labels(text, all, count - 1);
        let label = all[count - 1];
        if label.kind == LabelKind::Definition {
            before.push(text.subrange(label.name.start as int, label.name.end as int))
        } else {
            before
        }
    }
}

/// The text of each of the first `count` spans.
pub open spec fn texts_of(text: Seq<u8>, spans: Seq<Span>, count: int) -> Seq<Seq<u8>>
    decreases count,
{
    if count <= 0 {
        Seq::empty()
    } else {
        texts_of(text, spans, count - 1).push(
            text.subrange(spans[count - 1].start as int, spans[count - 1].end as int),
        )
    }
}

/// What a document offers for completion: a bibliography the keys of its
/// entries, a TeX source the labels that it defines and the environments that
/// it defines.
pub open spec fn offered(document: DocumentView, kind: CompletionKind) -> Seq<Seq<u8>> {
    match kind {
        CompletionKind::Citation => keys(
            document.text,
            document.entries(),
            document.entries().len() as int,
        ),
        CompletionKind::Label => if document.language == Language::Tex {
            defined_labels(
                document.text,
                labels(document.text),
                labels(document.text).len() as int,
            )
        } else {
            Seq::empty()
        },
        CompletionKind::Environment => if document.language == Language::Tex {
            texts_of(
                document.text,
                words_tagged(items(document.text), Tag::EnvironmentDefinition),
                words_tagged(items(document.text), Tag::EnvironmentDefinition).len() as int,
            )
        } else {
            Seq::empty()
        },
    }
}

/// What the first `count` of `members` offer, in order.
pub open spec fn offered_by(
    workspace: WorkspaceView,
    members: Seq<usize>,
    kind: CompletionKind,
    count: int,
) -> Seq<Seq<u8>>
    decreases count,
{
    if count <= 0 {
        Seq::empty()
    } else {
        offered_by(workspace, members, kind, count - 1) + offered(
            workspace.documents[members[count - 1] as int],
            kind,
        )
    }
}

/// What a member offers is among what the members offer: so the keys of a
/// bibliography are offered for the citations of every document of its
/// project, and the labels of a source for its references.
pub proof fn lemma_member_offers(
    workspace: WorkspaceView,
    members: Seq<usize>,
    kind: CompletionKind,
    count: int,
    m: int,
    n: int,
)
    requires
        0 <= m < count <= members.len(),
        0 <= n < offered(workspace.documents[members[m] as int], kind).len(),
    ensures
        offered_by(workspace, members, kind, count).contains(
            offered(workspace.documents[members[m] as int], kind)[n],
        ),
    decreases count,
{
    let before = offered_by(workspace, members, kind, count - 1);
    let all = offered_by(workspace, members, kind, count);
    let word = offered(workspace.documents[members[m] as int], kind)[n];
    if m == count - 1 {
        assert(all[before.len() + n] == word);
    } else {
        lemma_member_offers(workspace, members, kind, count - 1, m, n);
        let at = choose|at: int| 0 <= at < before.len() && before[at] == word;
        assert(all[at] == word);
    }
}

/// What is offered at a position of document `i`: what the documents of its
/// project offer for the context of the position.
pub open spec fn candidates_at(workspace: WorkspaceView, i: int, position: Position) -> Seq<Seq<u8>> {
    let document = workspace.documents[i];
    if document.language != Language::Tex {
        Seq::empty()
    } else {
        match context_at(document.text, offset_of(document.text, position)) {
            Some(kind) => offered_by(
                workspace,
                project_of(workspace, i),
                kind,
                project_of(workspace, i).len() as int,
            ),
            None => Seq::empty(),
        }
    }
}

/// The labels of some items.
pub open spec fn labels_of(list: Seq<CompletionItem>) -> Seq<Seq<u8>> {
    Seq::new(list.len(), |k: int| list[k].label@)
}

/// What is completed at an offset of a TeX source.
pub fn context(text: &[u8], offset: usize) -> (kind: Option<CompletionKind>)
    ensures
        kind == context_at(text@, offset as int),
{
    let found = parse_tex(text);
    let mut count: usize = found.len();
    while count > 0
        invariant
            0 <= count <= found@.len(),
            found@ == commands(text@),
            forall|k: int|
                0 <= k < found@.len() ==> command_within(#[trigger] found@[k], text@.len() as int),
            innermost(found@, offset as int, count as int) == innermost(
                found@,
                offset as int,
                found@.len() as int,
            ),
        decreases count,
    {
        let command = found[count - 1];
        assert(command_within(found@[count - 1], text@.len() as int));
        match command.argument {
            Some(argument) => {
                if argument.start <= offset && offset <= argument.end {
                    return match classify(text, command.name.start, command.name.end) {
                        Some(Tag::Citation) => Some(CompletionKind::Citation),
                        Some(Tag::Label(LabelKind::Reference)) => Some(CompletionKind::Label),
                        Some(Tag::Environment) => Some(CompletionKind::Environment),
                        _ => None,
                    };
                }
            },
            None => {},
        }
        count -= 1;
    }
    None
}

/// Appends what a document offers to `found`.
fn push_offered(found: &mut Vec<Vec<u8>>, document: &Document, kind: CompletionKind)
    requires
        document.wf(),
    ensures
        paths_of(final(found)@) == paths_of(old(found)@) + offered(document@, kind),
{
    let text = document.text().as_slice();
    let ghost before = paths_of(found@);
    assert(before + Seq::<Seq<u8>>::empty() =~= before);
    match kind {
        CompletionKind::Citation => {
            let all = document.entries();
            let mut k: usize = 0;
            while k < all.len()
                invariant
                    0 <= k <= all@.len(),
                    forall|j: int|
                        0 <= j < all@.len() ==> entry_within(#[trigger] all@[j], text@.len() as int),
                    paths_of(found@) == before + keys(text@, all@, k as int),
                decreases all@.len() - k,
            {
                let entry = all[k];
                assert(entry_within(all@[k as int], text@.len() as int));
                let ghost held = paths_of(found@);
                if describes_work(text, &entry) {
                    found.push(copy_range(text, entry.key.start, entry.key.end));
                    assert(paths_of(found@) =~= held.push(
                        text@.subrange(entry.key.start as int, entry.key.end as int),
                    ));
                }
                assert(paths_of(found@) =~= before + keys(text@, all@, k + 1));
                k += 1;
            }
        },
        CompletionKind::Label => {
            if document.language() == Language::Tex {
                let analysis = document.analysis();
                let size = text.len();
                proof {
                    assert(text@.len() == size <= usize::MAX);
                    crate::syntax::lemma_commands_within(text@, 0, crate::syntax::Mode::Plain);
                    crate::analysis::lemma_items_within(text@, commands(text@));
                    lemma_labels_within(items(text@), text@.len() as int);
                }
                let all = &analysis.labels;
                let mut k: usize = 0;
                while k < all.len()
                    invariant
                        0 <= k <= all@.len(),
                        forall|j: int|
                            0 <= j < all@.len() ==> (#[trigger] all@[j]).name.start <= all@[j].name.end
                                <= text@.len(),
                        paths_of(found@) == before + defined_labels(text@, all@, k as int),
                    decreases all@.len() - k,
                {
                    let label = all[k];
                    assert(all@[k as int].name.end <= text@.len());
                    let ghost held = paths_of(found@);
                    if label.kind == LabelKind::Definition {
                        found.push(copy_range(text, label.name.start, label.name.end));
                        assert(paths_of(found@) =~= held.push(
                            text@.subrange(label.name.start as int, label.name.end as int),
                        ));
                    }
                    assert(paths_of(found@) =~= before + defined_labels(text@, all@, k + 1));
                    k += 1;
                }
            }
        },
        CompletionKind::Environment => {
            if document.language() == Language::Tex {
                let analysis = document.analysis();
                let size = text.len();
                proof {
                    assert(text@.len() == size <= usize::MAX);
                    crate::syntax::lemma_commands_within(text@, 0, crate::syntax::Mode::Plain);
                    crate::analysis::lemma_items_within(text@, commands(text@));
                    crate::analysis::lemma_words_tagged_within(
                        items(text@),
                        Tag::EnvironmentDefinition,
                        text@.len() as int,
                    );
                }
                let all = &analysis.defined_environments;
                let mut k: usize = 0;
                while k < all.len()
                    invariant
                        0 <= k <= all@.len(),
                        crate::analysis::spans_within(all@, text@.len() as int),
                        paths_of(found@) == before + texts_of(text@, all@, k as int),
                    decreases all@.len() - k,
                {
                    let span = all[k];
                    assert(all@[k as int].end <= text@.len());
                    let ghost held = paths_of(found@);
                    found.push(copy_range(text, span.start, span.end));
                    assert(paths_of(found@) =~= held.push(
                        text@.subrange(span.start as int, span.end as int),
                    ));
                    assert(paths_of(found@) =~= before + texts_of(text@, all@, k + 1));
                    k += 1;
                }
            }
        },
    }
}

/// The labels among items that lie within a text lie within it.
proof fn lemma_labels_within(all: Seq<Item>, len: int)
    requires
        crate::analysis::items_within(all, len),
    ensures
        forall|j: int|
            0 <= j < labels_in(all).len() ==> (#[trigger] labels_in(all)[j]).name.start
                <= labels_in(all)[j].name.end <= len,
    decreases all.len(),
{
    if all.len() > 0 {
        lemma_labels_within(all.drop_last(), len);
        assert(all[all.len() - 1].word.end <= len);
    }
}

/// What is offered at a position of the document with this URI: where the
/// position stands in the argument of a citation, the keys of the project's
/// bibliographies; in that of a label reference, the labels that the project
/// defines; in that of an environment, the environments that the project
/// defines. No more than the limit is offered, and the list says whether there
/// was more. There is no list for a document that is not held.
pub fn complete(workspace: &Workspace, uri: &[u8], position: Position) -> (list: Option<
    CompletionList,
>)
    requires
        workspace.wf(),
    ensures
        match workspace@.index_of(normalized(uri@)) {
            None => list is None,
            Some(i) => {
                let all = candidates_at(workspace@, i, position);
                &&& list matches Some(found)
                &&& found.is_incomplete == (all.len() > COMPLETION_LIMIT)
                &&& labels_of(found.items@) == if all.len() > COMPLETION_LIMIT {
                    all.subrange(0, COMPLETION_LIMIT as int)
                } else {
                    all
                }
                &&& forall|k: int|
                    0 <= k < found.items@.len() ==> Some((#[trigger] found.items@[k]).kind)
                        == context_at(
                        workspace@.documents[i].text,
                        offset_of(workspace@.documents[i].text, position),
                    )
            },
        },
{
    let normal = normalize(uri);
    let i = match workspace.lookup(normal.as_slice()) {
        Some(i) => i,
        None => {
            return None;
        },
    };
    let document = workspace.document(i);
    let empty = CompletionList { is_incomplete: false, items: Vec::new() };
    assert(labels_of(empty.items@) =~= Seq::<Seq<u8>>::empty());
    if document.language() != Language::Tex {
        return Some(empty);
    }
    let offset = document.offset_at(position);
    let kind = match context(document.text().as_slice(), offset) {
        Some(kind) => kind,
        None => {
            return Some(empty);
        },
    };
    let members = workspace.related(i);
    let mut all: Vec<Vec<u8>> = Vec::new();
    assert(paths_of(all@) =~= Seq::<Seq<u8>>::empty());
    let mut m: usize = 0;
    while m < members.len()
        invariant
            workspace.wf(),
            0 <= m <= members@.len(),
            forall|k: int| 0 <= k < members@.len() ==> #[trigger] members@[k] < workspace@.documents.len(),
            paths_of(all@) == offered_by(workspace@, members@, kind, m as int),
        decreases members@.len() - m,
    {
        assert(members@[m as int] < workspace@.documents.len());
        push_offered(&mut all, workspace.document(members[m]), kind);
        m += 1;
    }
    let total = all.len();
    let mut items: Vec<CompletionItem> = Vec::new();
    let mut k: usize = 0;
    while k < total && k < COMPLETION_LIMIT
        invariant
            total == all@.len(),
            0 <= k <= total,
            k <= COMPLETION_LIMIT,
            items@.len() == k,
            forall|j: int| 0 <= j < k ==> (#[trigger] items@[j]).label@ == all@[j]@,
            forall|j: int| 0 <= j < k ==> (#[trigger] items@[j]).kind == kind,
        decreases total - k,
    {
        let label = &all[k];
        assert(label@.subrange(0, label@.len() as int) =~= label@);
        items.push(CompletionItem { label: copy_range(label.as_slice(), 0, label.len()), kind });
        k += 1;
    }
    proof {
        let wanted = candidates_at(workspace@, i as int, position);
        assert(wanted == paths_of(all@));
        if wanted.len() > COMPLETION_LIMIT {
            assert(labels_of(items@) =~= wanted.subrange(0, COMPLETION_LIMIT as int));
        } else {
            assert(labels_of(items@) =~= wanted);
        }
    }
    Some(CompletionList { is_incomplete: total > COMPLETION_LIMIT, items })
}

} // verus!
