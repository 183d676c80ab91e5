//! A document: its identity, its text, and what is derived from the text.

use crate::analysis::{links, links_within, Analysis, Link};
use crate::bibtex::{entries, entry_within, Entry};
use crate::syntax::{diagnostics, Diagnostic, SyntaxError};
use crate::bytes::{bytes_of, copy_range, extend_range, range_same};
use crate::text::{
    in_range, lemma_position_at, offset_of, position_at, position_of, LineIndex, Position,
    PositionRange,
};
use std::sync::Arc;
use vstd::prelude::*;
use vstd::utf8::valid_utf8;
use vstd::string::*;

verus! {

/// The byte before an extension.
pub const DOT: u8 = 46u8;

/// The byte between the segments of a path.
pub const SLASH: u8 = 47u8;

/// What a document holds.
#[derive(Debug, PartialEq, Eq, Clone, Copy, Structural)]
pub enum Language {
    Tex,
    Bib,
    BuildLog,
    AuxFile,
    Other,
}

/// Who holds the current text of a document: an editor, or the disk.
#[derive(Debug, PartialEq, Eq, Clone, Copy, Structural)]
pub enum Owner {
    Client,
    Server,
}

/// One content change of an editor: new text for a range, or, without a
/// range, for the whole document.
pub struct TextChange {
    pub range: Option<PositionRange>,
    pub text: Vec<u8>,
}

/// The index of the last byte of `text` before `end` that is `byte`, or -1.
pub open spec fn find_last(text: Seq<u8>, end: int, byte: u8) -> int
    decreases end,
{
    if end <= 0 {
        -1
    } else if text[end - 1] == byte {
        end - 1
    } else {
        find_last(text, end - 1, byte)
    }
}

/// `find_last` returns -1 or an index that holds the byte, and the byte
/// stands nowhere after it.
pub proof fn lemma_find_last(text: Seq<u8>, end: int, byte: u8)
    requires
        0 <= end <= text.len(),
    ensures
        -1 <= find_last(text, end, byte) < end,
        find_last(text, end, byte) >= 0 ==> text[find_last(text, end, byte)] == byte,
        forall|j: int| find_last(text, end, byte) < j < end ==> text[j] != byte,
    decreases end,
{
    if end > 0 && text[end - 1] != byte {
        lemma_find_last(text, end - 1, byte);
    }
}

/// Where the extension of a path starts: after the last dot of its last
/// segment. A path whose last segment has no dot has no extension.
pub open spec fn extension_start(path: Seq<u8>) -> Option<int> {
    let dot = find_last(path, path.len() as int, DOT);
    let slash = find_last(path, path.len() as int, SLASH);
    if dot > slash {
        Some(dot + 1)
    } else {
        None
    }
}

/// The extension of a path, without its dot.
pub open spec fn extension_of(path: Seq<u8>) -> Option<Seq<u8>> {
    match extension_start(path) {
        Some(start) => Some(path.subrange(start, path.len() as int)),
        None => None,
    }
}

/// The language that an extension stands for.
pub open spec fn language_of_extension(extension: Seq<u8>) -> Option<Language> {
    if extension == bytes_of("tex") || extension == bytes_of("sty") || extension == bytes_of("cls")
        || extension == bytes_of("def") || extension == bytes_of("lco") || extension == bytes_of(
        "rnw",
    ) {
        Some(Language::Tex)
    } else if extension == bytes_of("bib") || extension == bytes_of("bibtex") {
        Some(Language::Bib)
    } else if extension == bytes_of("log") {
        Some(Language::BuildLog)
    } else if extension == bytes_of("aux") {
        Some(Language::AuxFile)
    } else {
        None
    }
}

/// The language of the file at `path`, by its extension.
pub open spec fn language_of_path(path: Seq<u8>) -> Option<Language> {
    match extension_of(path) {
        Some(extension) => language_of_extension(extension),
        None => None,
    }
}

/// The language that an editor's language id stands for.
pub open spec fn language_of_id(id: Seq<char>) -> Option<Language> {
    if id == "tex"@ || id == "latex"@ {
        Some(Language::Tex)
    } else if id == "bib"@ || id == "bibtex"@ {
        Some(Language::Bib)
    } else {
        None
    }
}

/// The index of the last byte of `text` that is `byte`.
pub fn last_index_of(text: &[u8], byte: u8) -> (at: Option<usize>)
    ensures
        match at {
            Some(i) => i as int == find_last(text@, text@.len() as int, byte),
            None => find_last(text@, text@.len() as int, byte) == -1,
        },
{
    let mut end: usize = text.len();
    while end > 0
        invariant
            0 <= end <= text.len(),
            find_last(text@, end as int, byte) == find_last(text@, text@.len() as int, byte),
        decreases end,
    {
        if text[end - 1] == byte {
            return Some(end - 1);
        }
        end -= 1;
    }
    None
}

impl Language {
    /// The language of the file at `path`, where its extension is a known one.
    pub fn from_path(path: &[u8]) -> (language: Option<Language>)
        ensures
            language == language_of_path(path@),
    {
        proof {
            lemma_find_last(path@, path@.len() as int, DOT);
            lemma_find_last(path@, path@.len() as int, SLASH);
        }
        let dot = match last_index_of(path, DOT) {
            Some(dot) => dot,
            None => {
                return None;
            },
        };
        match last_index_of(path, SLASH) {
            Some(slash) => {
                if slash > dot {
                    return None;
                }
            },
            None => {},
        }
        let to = path.len();
        let from = dot + 1;
        if range_same(path, from, to, "tex".as_bytes()) || range_same(
            path,
            from,
            to,
            "sty".as_bytes(),
        ) || range_same(path, from, to, "cls".as_bytes()) || range_same(
            path,
            from,
            to,
            "def".as_bytes(),
        ) || range_same(path, from, to, "lco".as_bytes()) || range_same(
            path,
            from,
            to,
            "rnw".as_bytes(),
        ) {
            Some(Language::Tex)
        } else if range_same(path, from, to, "bib".as_bytes()) || range_same(
            path,
            from,
            to,
            "bibtex".as_bytes(),
        ) {
            Some(Language::Bib)
        } else if range_same(path, from, to, "log".as_bytes()) {
            Some(Language::BuildLog)
        } else if range_same(path, from, to, "aux".as_bytes()) {
            Some(Language::AuxFile)
        } else {
            None
        }
    }

    /// The language that an editor's language id names, where it is a known one.
    pub fn from_id(id: &str) -> (language: Option<Language>)
        ensures
            language == language_of_id(id@),
    {
        if crate::bytes::str_same(id, "tex") || crate::bytes::str_same(id, "latex") {
            Some(Language::Tex)
        } else if crate::bytes::str_same(id, "bib") || crate::bytes::str_same(id, "bibtex") {
            Some(Language::Bib)
        } else {
            None
        }
    }
}

/// What a document is, as plain values.
pub ghost struct DocumentView {
    pub uri: Seq<u8>,
    pub text: Seq<u8>,
    pub language: Language,
    pub owner: Owner,
    pub cursor: int,
    pub revision: int,
}

impl DocumentView {
    /// The includes of the document: those of its text where it is a TeX
    /// source, none otherwise.
    pub open spec fn links(self) -> Seq<Link> {
        if self.language == Language::Tex {
            links(self.text)
        } else {
            Seq::empty()
        }
    }

    /// The messages of the parser: those about its text where it is a TeX
    /// source, none otherwise.
    pub open spec fn diagnostics(self) -> Seq<Diagnostic> {
        if self.language == Language::Tex {
            diagnostics(self.text)
        } else {
            Seq::empty()
        }
    }

    /// The entries of the document: those of its text where it is a
    /// bibliography, none otherwise.
    pub open spec fn entries(self) -> Seq<Entry> {
        if self.language == Language::Bib {
            entries(self.text)
        } else {
            Seq::empty()
        }
    }
}

/// A message of the parser with the range of positions that it is about.
#[derive(Debug, PartialEq, Eq, Clone, Copy, Structural)]
pub struct Problem {
    pub range: PositionRange,
    pub error: SyntaxError,
}

/// The offset after `at`, as far as there is one.
pub open spec fn after(at: usize) -> int {
    if at < usize::MAX {
        at + 1
    } else {
        at as int
    }
}

/// The messages of the parser about a document, each with the range of the
/// byte that it is about.
pub open spec fn problems_of(document: DocumentView) -> Seq<Problem> {
    Seq::new(
        document.diagnostics().len(),
        |k: int|
            Problem {
                range: PositionRange {
                    start: position_at(document.text, document.diagnostics()[k].at as int),
                    end: position_at(document.text, after(document.diagnostics()[k].at)),
                },
                error: document.diagnostics()[k].error,
            },
    )
}

/// `text` with the bytes in `[start, end)` replaced by `with`.
pub open spec fn splice(text: Seq<u8>, start: int, end: int, with: Seq<u8>) -> Seq<u8> {
    text.subrange(0, start) + with + text.subrange(end, text.len() as int)
}

/// Where a ranged change starts in `text`.
pub open spec fn change_start(text: Seq<u8>, range: PositionRange) -> int {
    offset_of(text, range.start)
}

/// Where a ranged change ends in `text`: at the offset of its end position,
/// or at its start where the end lies before the start.
pub open spec fn change_end(text: Seq<u8>, range: PositionRange) -> int {
    if offset_of(text, range.end) >= offset_of(text, range.start) {
        offset_of(text, range.end)
    } else {
        offset_of(text, range.start)
    }
}

/// The text after one change.
pub open spec fn apply_change(text: Seq<u8>, change: TextChange) -> Seq<u8> {
    match change.range {
        Some(range) => splice(text, change_start(text, range), change_end(text, range), change.text@),
        None => change.text@,
    }
}

/// The text after a batch of changes, applied in order, each to the text that
/// the changes before it left.
pub open spec fn apply_changes(text: Seq<u8>, changes: Seq<TextChange>) -> Seq<u8>
    decreases changes.len(),
{
    if changes.len() == 0 {
        text
    } else {
        apply_change(apply_changes(text, changes.drop_last()), changes.last())
    }
}

/// The cursor after a batch of changes: where the last change started, zero
/// after a change of the whole text, and unchanged by an empty batch.
pub open spec fn cursor_after(text: Seq<u8>, cursor: int, changes: Seq<TextChange>) -> int {
    if changes.len() == 0 {
        cursor
    } else {
        match changes.last().range {
            Some(range) => change_start(apply_changes(text, changes.drop_last()), range),
            None => 0,
        }
    }
}

/// Whether a change names places of `text` only: a change of the whole text
/// names none.
pub open spec fn change_in_range(text: Seq<u8>, change: TextChange) -> bool {
    match change.range {
        Some(range) => in_range(text, range.start) && in_range(text, range.end),
        None => true,
    }
}

/// Whether a position of some change of a batch lies outside the text that
/// the change is applied to, and is clamped.
pub open spec fn clamps(text: Seq<u8>, changes: Seq<TextChange>) -> bool
    decreases changes.len(),
{
    if changes.len() == 0 {
        false
    } else {
        clamps(text, changes.drop_last()) || !change_in_range(
            apply_changes(text, changes.drop_last()),
            changes.last(),
        )
    }
}

/// Whether every change of a batch brings UTF-8.
pub open spec fn bring_utf8(changes: Seq<TextChange>) -> bool {
    forall|k: int| 0 <= k < changes.len() ==> valid_utf8((#[trigger] changes[k]).text@)
}

/// What a batch of changes did to a document.
#[derive(Debug, PartialEq, Eq, Clone, Copy, Structural)]
pub struct Applied {
    /// Whether the document changed: it did unless the batch was empty.
    pub changed: bool,
    /// Whether a position of the batch lay outside the text and was clamped.
    pub clamped: bool,
}

/// Applying one batch and then another is applying the two as one batch.
pub proof fn lemma_apply_changes_concat(text: Seq<u8>, first: Seq<TextChange>, second: Seq<TextChange>)
    ensures
        apply_changes(text, first + second) == apply_changes(apply_changes(text, first), second),
    decreases second.len(),
{
    if second.len() == 0 {
        assert(first + second =~= first);
    } else {
        lemma_apply_changes_concat(text, first, second.drop_last());
        assert((first + second).drop_last() =~= first + second.drop_last());
        assert((first + second).last() == second.last());
    }
}

/// What a document is made of apart from its owner and its cursor: the text
/// and what is derived from it. It is shared between a document and its
/// copies, and replaced as a whole when the text changes.
struct Content {
    uri: Vec<u8>,
    text: Vec<u8>,
    language: Language,
    revision: u64,
    index: LineIndex,
    analysis: Analysis,
}

/// A document of the workspace.
pub struct Document {
    content: Arc<Content>,
    owner: Owner,
    cursor: usize,
}

impl View for Document {
    type V = DocumentView;

    closed spec fn view(&self) -> DocumentView {
        DocumentView {
            uri: self.content.uri@,
            text: self.content.text@,
            language: self.content.language,
            owner: self.owner,
            cursor: self.cursor as int,
            revision: self.content.revision as int,
        }
    }
}

/// Another pointer to the same value.
///
/// This is `Arc::clone`, which makes another pointer to the same allocation:
/// both point to one value.
#[verifier::external_body]
pub(crate) fn share<T>(value: &Arc<T>) -> (shared: Arc<T>)
    ensures
        *shared == **value,
{
    Arc::clone(value)
}

impl Content {
    /// The content of a document with this text: the line index and the
    /// analysis are computed from the text.
    fn new(uri: Vec<u8>, text: Vec<u8>, language: Language, revision: u64) -> (content: Content)
        ensures
            content.wf(),
            content.uri@ == uri@,
            content.text@ == text@,
            content.language == language,
            content.revision == revision,
    {
        let index = LineIndex::new(text.as_slice());
        let analysis = Analysis::of(language, text.as_slice());
        Content { uri, text, language, revision, index, analysis }
    }

    /// The line index and the analysis are those of the text.
    spec fn wf(&self) -> bool {
        &&& self.index.wf()
        &&& self.index.describes(self.text@)
        &&& self.analysis.describes(self.language, self.text@)
        &&& links_within(self.analysis.links@, self.text@.len() as int)
        &&& forall|k: int|
            0 <= k < self.analysis.entries@.len() ==> entry_within(
                #[trigger] self.analysis.entries@[k],
                self.text@.len() as int,
            )
    }
}

impl Document {
    /// The line index and the analysis are those of the text.
    pub closed spec fn wf(&self) -> bool {
        self.content.wf()
    }

    /// A document with the cursor at the start of its text.
    pub fn new(uri: Vec<u8>, text: Vec<u8>, language: Language, owner: Owner, revision: u64) -> (document:
        Document)
        ensures
            document.wf(),
            document@ == (DocumentView {
                uri: uri@,
                text: text@,
                language,
                owner,
                cursor: 0,
                revision: revision as int,
            }),
    {
        Document { content: Arc::new(Content::new(uri, text, language, revision)), owner, cursor: 0 }
    }

    /// The identifier of the document, in normal form where the workspace holds it.
    pub fn uri(&self) -> (uri: &Vec<u8>)
        ensures
            uri@ == self@.uri,
    {
        &self.content.uri
    }

    /// The current text.
    pub fn text(&self) -> (text: &Vec<u8>)
        ensures
            text@ == self@.text,
    {
        &self.content.text
    }

    /// What the document holds.
    pub fn language(&self) -> (language: Language)
        ensures
            language == self@.language,
    {
        self.content.language
    }

    /// Who holds the current text.
    pub fn owner(&self) -> (owner: Owner)
        ensures
            owner == self@.owner,
    {
        self.owner
    }

    /// The caret as it was last recorded, as a byte offset.
    pub fn cursor(&self) -> (cursor: usize)
        ensures
            cursor == self@.cursor,
    {
        self.cursor
    }

    /// The revision of the workspace at which the text last changed.
    pub fn revision(&self) -> (revision: u64)
        ensures
            revision == self@.revision,
    {
        self.content.revision
    }

    /// The includes of the document, as they were read off its current text.
    pub fn links(&self) -> (found: &Vec<Link>)
        requires
            self.wf(),
        ensures
            found@ == self@.links(),
            links_within(found@, self@.text.len() as int),
    {
        proof {
            if self.content.language != Language::Tex {
                assert(self.content.analysis.links@ =~= Seq::<Link>::empty());
            }
        }
        &self.content.analysis.links
    }

    /// What was read off the current text: a function of the language and
    /// the text.
    pub fn analysis(&self) -> (analysis: &Analysis)
        requires
            self.wf(),
        ensures
            analysis.describes(self@.language, self@.text),
    {
        &self.content.analysis
    }

    /// The entries of the document, as they were read off its current text.
    pub fn entries(&self) -> (found: &Vec<Entry>)
        requires
            self.wf(),
        ensures
            found@ == self@.entries(),
            forall|k: int|
                0 <= k < found@.len() ==> entry_within(#[trigger] found@[k], self@.text.len() as int),
    {
        proof {
            if self.content.language != Language::Bib {
                assert(self.content.analysis.entries@ =~= Seq::<Entry>::empty());
            }
        }
        &self.content.analysis.entries
    }

    /// The messages of the parser about the current text, each with the range
    /// of the byte that it is about.
    pub fn problems(&self) -> (found: Vec<Problem>)
        requires
            self.wf(),
        ensures
            found@ == problems_of(self@),
    {
        let all = &self.content.analysis.diagnostics;
        let mut found: Vec<Problem> = Vec::new();
        let ghost wanted = problems_of(self@);
        proof {
            if self.content.language != Language::Tex {
                assert(all@ =~= Seq::<Diagnostic>::empty());
            }
            assert(wanted.len() == all@.len());
        }
        let mut k: usize = 0;
        while k < all.len()
            invariant
                self.wf(),
                0 <= k <= all@.len(),
                all@ == self@.diagnostics(),
                wanted == problems_of(self@),
                found@.len() == k,
                forall|j: int| 0 <= j < k ==> found@[j] == wanted[j],
            decreases all@.len() - k,
        {
            let at = all[k].at;
            let after = if at < usize::MAX {
                at + 1
            } else {
                at
            };
            let range = PositionRange {
                start: self.position_at(at),
                end: self.position_at(after),
            };
            found.push(Problem { range, error: all[k].error });
            k += 1;
        }
        assert(found@ =~= wanted);
        found
    }

    /// Records who holds the text. The text and the revision stay.
    pub fn set_owner(&mut self, owner: Owner)
        requires
            old(self).wf(),
        ensures
            final(self).wf(),
            final(self)@ == (DocumentView { owner, ..old(self)@ }),
    {
        self.owner = owner;
    }

    /// Records the caret. The text and the revision stay.
    pub fn set_cursor(&mut self, cursor: usize)
        requires
            old(self).wf(),
        ensures
            final(self).wf(),
            final(self)@ == (DocumentView { cursor: cursor as int, ..old(self)@ }),
    {
        self.cursor = cursor;
    }

    /// A copy of the URI.
    fn copy_uri(&self) -> (uri: Vec<u8>)
        ensures
            uri@ == self@.uri,
    {
        let uri = &self.content.uri;
        assert(uri@.subrange(0, uri@.len() as int) =~= uri@);
        copy_range(uri.as_slice(), 0, uri.len())
    }

    /// Replaces the text, the language and the owner, as when a document that
    /// is already held is opened again. The cursor stays.
    pub fn reopen(&mut self, text: Vec<u8>, language: Language, owner: Owner, revision: u64)
        requires
            old(self).wf(),
        ensures
            final(self).wf(),
            final(self)@ == (DocumentView {
                text: text@,
                language,
                owner,
                revision: revision as int,
                ..old(self)@
            }),
    {
        let uri = self.copy_uri();
        self.content = Arc::new(Content::new(uri, text, language, revision));
        self.owner = owner;
    }

    /// Replaces the whole text and puts the cursor at its start.
    pub fn replace(&mut self, text: Vec<u8>, revision: u64)
        requires
            old(self).wf(),
        ensures
            final(self).wf(),
            final(self)@ == (DocumentView {
                text: text@,
                cursor: 0,
                revision: revision as int,
                ..old(self)@
            }),
    {
        let uri = self.copy_uri();
        let language = self.content.language;
        self.content = Arc::new(Content::new(uri, text, language, revision));
        self.cursor = 0;
    }

    /// Applies a batch of changes in order, each against the text as the
    /// changes before it left it, positions being clamped to that text. An
    /// empty batch changes nothing and returns `false`.
    pub fn edit(&mut self, changes: &Vec<TextChange>, revision: u64) -> (done: Applied)
        requires
            old(self).wf(),
        ensures
            final(self).wf(),
            done.changed == (changes@.len() > 0),
            done.clamped == clamps(old(self)@.text, changes@),
            !done.changed ==> final(self)@ == old(self)@,
            done.changed ==> final(self)@ == (DocumentView {
                text: apply_changes(old(self)@.text, changes@),
                cursor: cursor_after(old(self)@.text, old(self)@.cursor, changes@),
                revision: revision as int,
                ..old(self)@
            }),
            valid_utf8(old(self)@.text) && bring_utf8(changes@) ==> valid_utf8(final(self)@.text),
    {
        if changes.len() == 0 {
            return Applied { changed: false, clamped: false };
        }
        proof {
            if valid_utf8(old(self)@.text) && bring_utf8(changes@) {
                crate::encoding::lemma_changes_keep_utf8(old(self)@.text, changes@);
            }
        }
        let ghost first = self.content.text@;
        let mut current: Vec<u8> = copy_range(
            self.content.text.as_slice(),
            0,
            self.content.text.len(),
        );
        let mut cursor: usize = self.cursor;
        let mut clamped = false;
        let mut i: usize = 0;
        assert(changes@.take(0) =~= Seq::<TextChange>::empty());
        assert(first.subrange(0, first.len() as int) =~= first);
        while i < changes.len()
            invariant
                0 <= i <= changes@.len(),
                current@ == apply_changes(first, changes@.take(i as int)),
                clamped == clamps(first, changes@.take(i as int)),
                cursor as int == cursor_after(first, self.cursor as int, changes@.take(i as int)),
            decreases changes@.len() - i,
        {
            assert(changes@.take(i + 1).drop_last() =~= changes@.take(i as int));
            assert(changes@.take(i + 1).last() == changes@[i as int]);
            let change = &changes[i];
            match change.range {
                Some(range) => {
                    let index = LineIndex::new(current.as_slice());
                    if !index.holds(current.as_slice(), range.start) || !index.holds(
                        current.as_slice(),
                        range.end,
                    ) {
                        clamped = true;
                    }
                    let start = index.offset(current.as_slice(), range.start);
                    let stop = index.offset(current.as_slice(), range.end);
                    let end = if stop >= start {
                        stop
                    } else {
                        start
                    };
                    let mut next: Vec<u8> = Vec::new();
                    extend_range(&mut next, current.as_slice(), 0, start);
                    extend_range(&mut next, change.text.as_slice(), 0, change.text.len());
                    extend_range(&mut next, current.as_slice(), end, current.len());
                    assert(change.text@.subrange(0, change.text@.len() as int) =~= change.text@);
                    assert(next@ =~= splice(current@, start as int, end as int, change.text@));
                    current = next;
                    cursor = start;
                },
                None => {
                    current = copy_range(change.text.as_slice(), 0, change.text.len());
                    assert(change.text@.subrange(0, change.text@.len() as int) =~= change.text@);
                    cursor = 0;
                },
            }
            i += 1;
        }
        assert(changes@.take(i as int) =~= changes@);
        let uri = self.copy_uri();
        let language = self.content.language;
        self.content = Arc::new(Content::new(uri, current, language, revision));
        self.cursor = cursor;
        Applied { changed: true, clamped }
    }

    /// The byte offset of a position in the current text, clamped to it.
    pub fn offset_at(&self, position: Position) -> (offset: usize)
        requires
            self.wf(),
        ensures
            offset == offset_of(self@.text, position),
            offset <= self@.text.len(),
    {
        self.content.index.offset(self.content.text.as_slice(), position)
    }

    /// The position of a byte offset in the current text; an offset past its
    /// end gives the position of the end.
    pub fn position_at(&self, offset: usize) -> (position: Position)
        requires
            self.wf(),
        ensures
            position_of(self@.text, offset as int, position),
            position == position_at(self@.text, offset as int),
    {
        let position = self.content.index.line_col(self.content.text.as_slice(), offset);
        proof {
            lemma_position_at(self@.text, offset as int, position);
        }
        position
    }

    /// A copy of the document. It shares the text and what is derived from
    /// it with this document, so that it is made in constant time; a later
    /// change of either leaves the other as it is.
    pub fn duplicate(&self) -> (copy: Document)
        ensures
            copy == *self,
    {
        Document { content: share(&self.content), owner: self.owner, cursor: self.cursor }
    }
}

} // verus!
