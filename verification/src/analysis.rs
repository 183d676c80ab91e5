//! What a TeX source says about its project: includes, labels, citations,
//! and the names it defines; all read off its commands.
//!
//! A command that is known by name contributes one item for each word of its
//! argument. Words are separated by commas and stripped of surrounding blanks;
//! an empty word is none.

use crate::bibtex::{entries, entry_within, parse_bibtex, Entry};
use crate::bytes::{bytes_of, find_byte, find_first, lemma_find_first, range_same};
use crate::document::Language;
use crate::syntax::{
    check_tex, command_within, commands, diagnostics, parse_tex, Command, Diagnostic,
};
use crate::text::Span;
use vstd::prelude::*;
use vstd::string::*;

verus! {

/// The byte that separates the words of an argument.
pub const COMMA: u8 = 44u8;

/// What kind of file an include names.
#[derive(Debug, PartialEq, Eq, Clone, Copy, Structural)]
pub enum LinkKind {
    Latex,
    Bibliography,
    Package,
    Class,
    Graphic,
}

/// Whether a label command defines the label or refers to it.
#[derive(Debug, PartialEq, Eq, Clone, Copy, Structural)]
pub enum LabelKind {
    Definition,
    Reference,
}

/// What a known command says of each word of its argument.
#[derive(Debug, PartialEq, Eq, Clone, Copy, Structural)]
pub enum Tag {
    Link(LinkKind),
    Label(LabelKind),
    Citation,
    Environment,
    EnvironmentDefinition,
    CommandDefinition,
}

/// One word of the argument of a known command.
#[derive(Debug, PartialEq, Eq, Clone, Copy, Structural)]
pub struct Item {
    pub tag: Tag,
    pub word: Span,
}

/// An include: its kind and where its path stands in the source, verbatim.
#[derive(Debug, PartialEq, Eq, Clone, Copy, Structural)]
pub struct Link {
    pub kind: LinkKind,
    pub path: Span,
}

/// A label that is defined or referred to, and where its name stands.
#[derive(Debug, PartialEq, Eq, Clone, Copy, Structural)]
pub struct Label {
    pub kind: LabelKind,
    pub name: Span,
}

/// A space, a tab, a line feed or a carriage return.
pub open spec fn is_blank(byte: u8) -> bool {
    byte == 32 || byte == 9 || byte == 10 || byte == 13
}

/// The first index in `[from, to)` that holds no blank, or `to`.
pub open spec fn skip_blank(text: Seq<u8>, from: int, to: int) -> int
    decreases to - from,
{
    if from < to && is_blank(text[from]) {
        skip_blank(text, from + 1, to)
    } else {
        from
    }
}

/// The end of `[from, to)` with the blanks at its end taken off.
pub open spec fn trim_end(text: Seq<u8>, from: int, to: int) -> int
    decreases to - from,
{
    if from < to && is_blank(text[to - 1]) {
        trim_end(text, from, to - 1)
    } else {
        to
    }
}

/// The words of `text` in `[from, to)`.
pub open spec fn words(text: Seq<u8>, from: int, to: int) -> Seq<Span>
    decreases to - from,
{
    if from >= to {
        Seq::empty()
    } else {
        let comma = find_first(text, from, to, COMMA);
        let start = skip_blank(text, from, comma);
        let end = trim_end(text, start, comma);
        let here = if start < end {
            seq![Span { start: start as usize, end: end as usize }]
        } else {
            Seq::empty()
        };
        if from <= comma < to {
            here + words(text, comma + 1, to)
        } else {
            here
        }
    }
}

/// What the command of this name says of its argument, if the name is known.
#[verifier::opaque]
pub open spec fn tag_of(name: Seq<u8>) -> Option<Tag> {
    if name == bytes_of("input") || name == bytes_of("include") || name == bytes_of("subfile")
        || name == bytes_of("subfileinclude") {
        Some(Tag::Link(LinkKind::Latex))
    } else if name == bytes_of("bibliography") || name == bytes_of("addbibresource") {
        Some(Tag::Link(LinkKind::Bibliography))
    } else if name == bytes_of("usepackage") || name == bytes_of("RequirePackage") {
        Some(Tag::Link(LinkKind::Package))
    } else if name == bytes_of("documentclass") {
        Some(Tag::Link(LinkKind::Class))
    } else if name == bytes_of("includegraphics") || name == bytes_of("includesvg") {
        Some(Tag::Link(LinkKind::Graphic))
    } else if name == bytes_of("label") {
        Some(Tag::Label(LabelKind::Definition))
    } else if name == bytes_of("ref") || name == bytes_of("eqref") || name == bytes_of("autoref")
        || name == bytes_of("pageref") || name == bytes_of("cref") || name == bytes_of("Cref") {
        Some(Tag::Label(LabelKind::Reference))
    } else if name == bytes_of("cite") || name == bytes_of("citep") || name == bytes_of("citet")
        || name == bytes_of("nocite") || name == bytes_of("parencite") || name == bytes_of(
        "textcite",
    ) || name == bytes_of("autocite") || name == bytes_of("footcite") {
        Some(Tag::Citation)
    } else if name == bytes_of("begin") {
        Some(Tag::Environment)
    } else if name == bytes_of("newenvironment") || name == bytes_of("renewenvironment") {
        Some(Tag::EnvironmentDefinition)
    } else if name == bytes_of("newcommand") || name == bytes_of("renewcommand") || name
        == bytes_of("providecommand") {
        Some(Tag::CommandDefinition)
    } else {
        None
    }
}

/// Each of `parts` as an item that carries `tag`.
pub open spec fn tagged(tag: Tag, parts: Seq<Span>) -> Seq<Item> {
    Seq::new(parts.len(), |k: int| Item { tag, word: parts[k] })
}

/// The items that one command contributes.
pub open spec fn items_of(text: Seq<u8>, command: Command) -> Seq<Item> {
    match (
        tag_of(text.subrange(command.name.start as int, command.name.end as int)),
        command.argument,
    ) {
        (Some(tag), Some(argument)) => tagged(
            tag,
            words(text, argument.start as int, argument.end as int),
        ),
        _ => Seq::empty(),
    }
}

/// The items that a sequence of commands contributes, in order.
pub open spec fn items_in(text: Seq<u8>, found: Seq<Command>) -> Seq<Item>
    decreases found.len(),
{
    if found.len() == 0 {
        Seq::empty()
    } else {
        items_in(text, found.drop_last()) + items_of(text, found.last())
    }
}

/// The items of a TeX source.
pub open spec fn items(text: Seq<u8>) -> Seq<Item> {
    items_in(text, commands(text))
}

/// The includes among some items, in order.
pub open spec fn links_in(all: Seq<Item>) -> Seq<Link>
    decreases all.len(),
{
    if all.len() == 0 {
        Seq::empty()
    } else {
        let before = links_in(all.drop_last());
        match all.last().tag {
            Tag::Link(kind) => before.push(Link { kind, path: all.last().word }),
            _ => before,
        }
    }
}

/// The labels among some items, in order.
pub open spec fn labels_in(all: Seq<Item>) -> Seq<Label>
    decreases all.len(),
{
    if all.len() == 0 {
        Seq::empty()
    } else {
        let before = labels_in(all.drop_last());
        match all.last().tag {
            Tag::Label(kind) => before.push(Label { kind, name: all.last().word }),
            _ => before,
        }
    }
}

/// The words of the items that carry `tag`, in order.
pub open spec fn words_tagged(all: Seq<Item>, tag: Tag) -> Seq<Span>
    decreases all.len(),
{
    if all.len() == 0 {
        Seq::empty()
    } else {
        let before = words_tagged(all.drop_last(), tag);
        if all.last().tag == tag {
            before.push(all.last().word)
        } else {
            before
        }
    }
}

/// The includes of a TeX source: kind and verbatim path, in source order.
pub open spec fn links(text: Seq<u8>) -> Seq<Link> {
    links_in(items(text))
}

/// The labels of a TeX source.
pub open spec fn labels(text: Seq<u8>) -> Seq<Label> {
    labels_in(items(text))
}

/// The citation keys of a TeX source.
pub open spec fn citations(text: Seq<u8>) -> Seq<Span> {
    words_tagged(items(text), Tag::Citation)
}

/// Whether every span lies within a text of `len` bytes and is not empty.
pub open spec fn spans_within(spans: Seq<Span>, len: int) -> bool {
    forall|k: int| 0 <= k < spans.len() ==> (#[trigger] spans[k]).start < spans[k].end <= len
}

/// Whether the word of every item lies within a text of `len` bytes.
pub open spec fn items_within(all: Seq<Item>, len: int) -> bool {
    forall|k: int| 0 <= k < all.len() ==> (#[trigger] all[k]).word.start < all[k].word.end <= len
}

/// Whether the path of every include lies within a text of `len` bytes.
pub open spec fn links_within(all: Seq<Link>, len: int) -> bool {
    forall|k: int| 0 <= k < all.len() ==> (#[trigger] all[k]).path.start < all[k].path.end <= len
}

/// Skipping blanks stays within the range.
pub proof fn lemma_skip_blank(text: Seq<u8>, from: int, to: int)
    requires
        from <= to,
    ensures
        from <= skip_blank(text, from, to) <= to,
    decreases to - from,
{
    if from < to && is_blank(text[from]) {
        lemma_skip_blank(text, from + 1, to);
    }
}

/// Taking blanks off the end stays within the range.
pub proof fn lemma_trim_end(text: Seq<u8>, from: int, to: int)
    requires
        from <= to,
    ensures
        from <= trim_end(text, from, to) <= to,
    decreases to - from,
{
    if from < to && is_blank(text[to - 1]) {
        lemma_trim_end(text, from, to - 1);
    }
}

/// The words of a range lie within it and are not empty.
pub proof fn lemma_words_within(text: Seq<u8>, from: int, to: int)
    requires
        0 <= from,
        to <= text.len() <= usize::MAX,
    ensures
        forall|k: int|
            0 <= k < words(text, from, to).len() ==> from <= (#[trigger] words(
                text,
                from,
                to,
            )[k]).start < words(text, from, to)[k].end <= to,
    decreases to - from,
{
    if from < to {
        let comma = find_first(text, from, to, COMMA);
        lemma_find_first(text, from, to, COMMA);
        let start = skip_blank(text, from, comma);
        lemma_skip_blank(text, from, comma);
        let end = trim_end(text, start, comma);
        lemma_trim_end(text, start, comma);
        let all = words(text, from, to);
        if comma < to {
            lemma_words_within(text, comma + 1, to);
            let rest = words(text, comma + 1, to);
            assert forall|k: int| 0 <= k < all.len() implies from <= (#[trigger] all[k]).start
                < all[k].end <= to by {
                if start < end {
                    if k > 0 {
                        assert(all[k] == rest[k - 1]);
                    }
                } else {
                    assert(all[k] == rest[k]);
                }
            }
        }
    }
}

/// The items of commands that lie within a text lie within it.
pub proof fn lemma_items_within(text: Seq<u8>, found: Seq<Command>)
    requires
        text.len() <= usize::MAX,
        forall|k: int| 0 <= k < found.len() ==> command_within(#[trigger] found[k], text.len() as int),
    ensures
        items_within(items_in(text, found), text.len() as int),
    decreases found.len(),
{
    if found.len() > 0 {
        lemma_items_within(text, found.drop_last());
        let before = items_in(text, found.drop_last());
        let here = items_of(text, found.last());
        let all = items_in(text, found);
        assert(command_within(found[found.len() - 1], text.len() as int));
        if let Some(argument) = found.last().argument {
            lemma_words_within(text, argument.start as int, argument.end as int);
        }
        assert forall|k: int| 0 <= k < all.len() implies (#[trigger] all[k]).word.start
            < all[k].word.end <= text.len() by {
            if k < before.len() {
                assert(all[k] == before[k]);
            } else {
                assert(all[k] == here[k - before.len()]);
            }
        }
    }
}

/// The includes among items that lie within a text lie within it.
pub proof fn lemma_links_within(all: Seq<Item>, len: int)
    requires
        items_within(all, len),
    ensures
        links_within(links_in(all), len),
    decreases all.len(),
{
    if all.len() > 0 {
        lemma_links_within(all.drop_last(), len);
        assert(all[all.len() - 1].word.end <= len);
    }
}

/// The words among items that lie within a text lie within it.
pub proof fn lemma_words_tagged_within(all: Seq<Item>, tag: Tag, len: int)
    requires
        items_within(all, len),
    ensures
        spans_within(words_tagged(all, tag), len),
    decreases all.len(),
{
    if all.len() > 0 {
        lemma_words_tagged_within(all.drop_last(), tag, len);
        assert(all[all.len() - 1].word.end <= len);
    }
}

/// The first index in `[from, to)` that holds no blank, or `to`.
pub fn skip_blanks(text: &[u8], from: usize, to: usize) -> (at: usize)
    requires
        from <= to <= text.len(),
    ensures
        at == skip_blank(text@, from as int, to as int),
        from <= at <= to,
{
    let mut at: usize = from;
    while at < to && (text[at] == 32 || text[at] == 9 || text[at] == 10 || text[at] == 13)
        invariant
            from <= at <= to <= text.len(),
            skip_blank(text@, at as int, to as int) == skip_blank(text@, from as int, to as int),
        decreases to - at,
    {
        at += 1;
    }
    at
}

/// The end of `[from, to)` with the blanks at its end taken off.
pub fn trim_blanks(text: &[u8], from: usize, to: usize) -> (end: usize)
    requires
        from <= to <= text.len(),
    ensures
        end == trim_end(text@, from as int, to as int),
        from <= end <= to,
{
    let mut end: usize = to;
    while from < end && (text[end - 1] == 32 || text[end - 1] == 9 || text[end - 1] == 10
        || text[end - 1] == 13)
        invariant
            from <= end <= to <= text.len(),
            trim_end(text@, from as int, end as int) == trim_end(text@, from as int, to as int),
        decreases end - from,
    {
        end -= 1;
    }
    end
}

/// The words of `text` in `[from, to)`.
pub fn split_words(text: &[u8], from: usize, to: usize) -> (found: Vec<Span>)
    requires
        from <= to <= text.len(),
    ensures
        found@ == words(text@, from as int, to as int),
{
    let mut found: Vec<Span> = Vec::new();
    let mut at: usize = from;
    while at < to
        invariant
            from <= at <= to <= text.len(),
            found@ + words(text@, at as int, to as int) == words(text@, from as int, to as int),
        decreases to - at,
    {
        let comma = find_byte(text, at, to, COMMA);
        let start = skip_blanks(text, at, comma);
        let end = trim_blanks(text, start, comma);
        let ghost before = found@;
        let ghost rest = if comma < to {
            words(text@, comma + 1, to as int)
        } else {
            Seq::empty()
        };
        if start < end {
            let word = Span { start, end };
            found.push(word);
            assert(before.push(word) + rest =~= before + (seq![word] + rest));
        } else {
            assert(before + (Seq::<Span>::empty() + rest) =~= before + rest);
        }
        if comma < to {
            at = comma + 1;
        } else {
            assert(found@ + Seq::<Span>::empty() =~= found@);
            at = to;
        }
    }
    assert(found@ + Seq::<Span>::empty() =~= found@);
    found
}

/// What the command whose name stands in `[from, to)` says of its argument.
pub fn classify(text: &[u8], from: usize, to: usize) -> (tag: Option<Tag>)
    requires
        from <= to <= text.len(),
    ensures
        tag == tag_of(text@.subrange(from as int, to as int)),
{
    reveal(tag_of);
    if range_same(text, from, to, "input".as_bytes()) || range_same(
        text,
        from,
        to,
        "include".as_bytes(),
    ) || range_same(text, from, to, "subfile".as_bytes()) || range_same(
        text,
        from,
        to,
        "subfileinclude".as_bytes(),
    ) {
        Some(Tag::Link(LinkKind::Latex))
    } else if range_same(text, from, to, "bibliography".as_bytes()) || range_same(
        text,
        from,
        to,
        "addbibresource".as_bytes(),
    ) {
        Some(Tag::Link(LinkKind::Bibliography))
    } else if range_same(text, from, to, "usepackage".as_bytes()) || range_same(
        text,
        from,
        to,
        "RequirePackage".as_bytes(),
    ) {
        Some(Tag::Link(LinkKind::Package))
    } else if range_same(text, from, to, "documentclass".as_bytes()) {
        Some(Tag::Link(LinkKind::Class))
    } else if range_same(text, from, to, "includegraphics".as_bytes()) || range_same(
        text,
        from,
        to,
        "includesvg".as_bytes(),
    ) {
        Some(Tag::Link(LinkKind::Graphic))
    } else if range_same(text, from, to, "label".as_bytes()) {
        Some(Tag::Label(LabelKind::Definition))
    } else if range_same(text, from, to, "ref".as_bytes()) || range_same(
        text,
        from,
        to,
        "eqref".as_bytes(),
    ) || range_same(text, from, to, "autoref".as_bytes()) || range_same(
        text,
        from,
        to,
        "pageref".as_bytes(),
    ) || range_same(text, from, to, "cref".as_bytes()) || range_same(
        text,
        from,
        to,
        "Cref".as_bytes(),
    ) {
        Some(Tag::Label(LabelKind::Reference))
    } else if range_same(text, from, to, "cite".as_bytes()) || range_same(
        text,
        from,
        to,
        "citep".as_bytes(),
    ) || range_same(text, from, to, "citet".as_bytes()) || range_same(
        text,
        from,
        to,
        "nocite".as_bytes(),
    ) || range_same(text, from, to, "parencite".as_bytes()) || range_same(
        text,
        from,
        to,
        "textcite".as_bytes(),
    ) || range_same(text, from, to, "autocite".as_bytes()) || range_same(
        text,
        from,
        to,
        "footcite".as_bytes(),
    ) {
        Some(Tag::Citation)
    } else if range_same(text, from, to, "begin".as_bytes()) {
        Some(Tag::Environment)
    } else if range_same(text, from, to, "newenvironment".as_bytes()) || range_same(
        text,
        from,
        to,
        "renewenvironment".as_bytes(),
    ) {
        Some(Tag::EnvironmentDefinition)
    } else if range_same(text, from, to, "newcommand".as_bytes()) || range_same(
        text,
        from,
        to,
        "renewcommand".as_bytes(),
    ) || range_same(text, from, to, "providecommand".as_bytes()) {
        Some(Tag::CommandDefinition)
    } else {
        None
    }
}

/// Appends each of `parts` as an item that carries `tag`.
fn push_tagged(all: &mut Vec<Item>, tag: Tag, parts: &Vec<Span>)
    ensures
        final(all)@ == old(all)@ + tagged(tag, parts@),
{
    let mut j: usize = 0;
    while j < parts.len()
        invariant
            0 <= j <= parts@.len(),
            all@ == old(all)@ + tagged(tag, parts@.take(j as int)),
        decreases parts@.len() - j,
    {
        all.push(Item { tag, word: parts[j] });
        assert(tagged(tag, parts@.take(j + 1)) =~= tagged(tag, parts@.take(j as int)).push(
            Item { tag, word: parts@[j as int] },
        ));
        j += 1;
    }
    assert(parts@.take(j as int) =~= parts@);
}

/// The items that the commands `found` of `text` contribute.
pub fn collect_items(text: &[u8], found: &Vec<Command>) -> (all: Vec<Item>)
    requires
        forall|k: int| 0 <= k < found@.len() ==> command_within(#[trigger] found@[k], text@.len() as int),
    ensures
        all@ == items_in(text@, found@),
        items_within(all@, text@.len() as int),
{
    let mut all: Vec<Item> = Vec::new();
    let mut i: usize = 0;
    assert(found@.take(0) =~= Seq::<Command>::empty());
    while i < found.len()
        invariant
            0 <= i <= found@.len(),
            forall|k: int|
                0 <= k < found@.len() ==> command_within(#[trigger] found@[k], text@.len() as int),
            all@ == items_in(text@, found@.take(i as int)),
        decreases found@.len() - i,
    {
        let command = found[i];
        assert(command_within(found@[i as int], text@.len() as int));
        assert(found@.take(i + 1).drop_last() =~= found@.take(i as int));
        assert(found@.take(i + 1).last() == command);
        let ghost before = all@;
        let tag = classify(text, command.name.start, command.name.end);
        match (tag, command.argument) {
            (Some(tag), Some(argument)) => {
                let parts = split_words(text, argument.start, argument.end);
                push_tagged(&mut all, tag, &parts);
            },
            _ => {
                assert(before + Seq::<Item>::empty() =~= before);
            },
        }
        i += 1;
    }
    assert(found@.take(i as int) =~= found@);
    let size = text.len();
    proof {
        assert(text@.len() == size);
        lemma_items_within(text@, found@);
    }
    all
}

/// The includes among some items.
pub fn select_links(all: &Vec<Item>) -> (found: Vec<Link>)
    ensures
        found@ == links_in(all@),
{
    let mut found: Vec<Link> = Vec::new();
    let mut i: usize = 0;
    assert(all@.take(0) =~= Seq::<Item>::empty());
    while i < all.len()
        invariant
            0 <= i <= all@.len(),
            found@ == links_in(all@.take(i as int)),
        decreases all@.len() - i,
    {
        assert(all@.take(i + 1).drop_last() =~= all@.take(i as int));
        assert(all@.take(i + 1).last() == all@[i as int]);
        match all[i].tag {
            Tag::Link(kind) => {
                found.push(Link { kind, path: all[i].word });
            },
            _ => {},
        }
        i += 1;
    }
    assert(all@.take(i as int) =~= all@);
    found
}

/// The labels among some items.
pub fn select_labels(all: &Vec<Item>) -> (found: Vec<Label>)
    ensures
        found@ == labels_in(all@),
{
    let mut found: Vec<Label> = Vec::new();
    let mut i: usize = 0;
    assert(all@.take(0) =~= Seq::<Item>::empty());
    while i < all.len()
        invariant
            0 <= i <= all@.len(),
            found@ == labels_in(all@.take(i as int)),
        decreases all@.len() - i,
    {
        assert(all@.take(i + 1).drop_last() =~= all@.take(i as int));
        assert(all@.take(i + 1).last() == all@[i as int]);
        match all[i].tag {
            Tag::Label(kind) => {
                found.push(Label { kind, name: all[i].word });
            },
            _ => {},
        }
        i += 1;
    }
    assert(all@.take(i as int) =~= all@);
    found
}

/// The words of the items that carry `tag`.
pub fn select_words(all: &Vec<Item>, tag: Tag) -> (found: Vec<Span>)
    ensures
        found@ == words_tagged(all@, tag),
{
    let mut found: Vec<Span> = Vec::new();
    let mut i: usize = 0;
    assert(all@.take(0) =~= Seq::<Item>::empty());
    while i < all.len()
        invariant
            0 <= i <= all@.len(),
            found@ == words_tagged(all@.take(i as int), tag),
        decreases all@.len() - i,
    {
        assert(all@.take(i + 1).drop_last() =~= all@.take(i as int));
        assert(all@.take(i + 1).last() == all@[i as int]);
        if all[i].tag == tag {
            found.push(all[i].word);
        }
        i += 1;
    }
    assert(all@.take(i as int) =~= all@);
    found
}

/// Where the name of each command stands.
pub open spec fn names_used(found: Seq<Command>) -> Seq<Span> {
    Seq::new(found.len(), |k: int| found[k].name)
}

/// Where the name of each command stands.
pub fn names_of(found: &Vec<Command>) -> (names: Vec<Span>)
    ensures
        names@ == names_used(found@),
{
    let mut names: Vec<Span> = Vec::new();
    let mut k: usize = 0;
    while k < found.len()
        invariant
            0 <= k <= found@.len(),
            names@.len() == k,
            forall|j: int| 0 <= j < k ==> names@[j] == (#[trigger] found@[j]).name,
        decreases found@.len() - k,
    {
        names.push(found[k].name);
        k += 1;
    }
    assert(names@ =~= names_used(found@));
    names
}

/// What was read off a document.
pub struct Analysis {
    pub links: Vec<Link>,
    pub labels: Vec<Label>,
    pub citations: Vec<Span>,
    pub environments: Vec<Span>,
    pub defined_environments: Vec<Span>,
    pub defined_commands: Vec<Span>,
    pub commands: Vec<Span>,
    pub entries: Vec<Entry>,
    pub diagnostics: Vec<Diagnostic>,
}

impl Analysis {
    /// Whether this is what the TeX source `text` says.
    pub open spec fn describes_tex(&self, text: Seq<u8>) -> bool {
        &&& self.links@ == links(text)
        &&& self.labels@ == labels(text)
        &&& self.citations@ == citations(text)
        &&& self.environments@ == words_tagged(items(text), Tag::Environment)
        &&& self.defined_environments@ == words_tagged(items(text), Tag::EnvironmentDefinition)
        &&& self.defined_commands@ == words_tagged(items(text), Tag::CommandDefinition)
        &&& self.commands@ == names_used(commands(text))
        &&& self.entries@.len() == 0
        &&& self.diagnostics@ == diagnostics(text)
    }

    /// Whether this is what the bibliography `text` says.
    pub open spec fn describes_bib(&self, text: Seq<u8>) -> bool {
        &&& self.links@.len() == 0
        &&& self.labels@.len() == 0
        &&& self.citations@.len() == 0
        &&& self.environments@.len() == 0
        &&& self.defined_environments@.len() == 0
        &&& self.defined_commands@.len() == 0
        &&& self.commands@.len() == 0
        &&& self.entries@ == entries(text)
        &&& self.diagnostics@.len() == 0
    }

    /// Whether nothing was read.
    pub open spec fn is_empty(&self) -> bool {
        &&& self.links@.len() == 0
        &&& self.labels@.len() == 0
        &&& self.citations@.len() == 0
        &&& self.environments@.len() == 0
        &&& self.defined_environments@.len() == 0
        &&& self.defined_commands@.len() == 0
        &&& self.commands@.len() == 0
        &&& self.entries@.len() == 0
        &&& self.diagnostics@.len() == 0
    }

    /// Whether this is the analysis of `text` read as `language`: that of a
    /// TeX source or of a bibliography, and nothing for any other document.
    /// So the analysis is a function of the language and the text.
    pub open spec fn describes(&self, language: Language, text: Seq<u8>) -> bool {
        match language {
            Language::Tex => self.describes_tex(text),
            Language::Bib => self.describes_bib(text),
            _ => self.is_empty(),
        }
    }

    /// The analysis of a document that is neither a TeX source nor a
    /// bibliography.
    pub fn empty() -> (analysis: Analysis)
        ensures
            analysis.is_empty(),
    {
        Analysis {
            links: Vec::new(),
            labels: Vec::new(),
            citations: Vec::new(),
            environments: Vec::new(),
            defined_environments: Vec::new(),
            defined_commands: Vec::new(),
            commands: Vec::new(),
            entries: Vec::new(),
            diagnostics: Vec::new(),
        }
    }

    /// Derives the analysis of a TeX source from its commands. The result
    /// depends on the commands and the text alone.
    pub fn from_commands(text: &[u8], found: &Vec<Command>) -> (analysis: Analysis)
        requires
            found@ == commands(text@),
            forall|k: int|
                0 <= k < found@.len() ==> command_within(#[trigger] found@[k], text@.len() as int),
        ensures
            analysis.describes_tex(text@),
            links_within(analysis.links@, text@.len() as int),
    {
        let all = collect_items(text, found);
        proof {
            lemma_links_within(all@, text@.len() as int);
        }
        Analysis {
            links: select_links(&all),
            labels: select_labels(&all),
            citations: select_words(&all, Tag::Citation),
            environments: select_words(&all, Tag::Environment),
            defined_environments: select_words(&all, Tag::EnvironmentDefinition),
            defined_commands: select_words(&all, Tag::CommandDefinition),
            commands: names_of(found),
            entries: Vec::new(),
            diagnostics: check_tex(text),
        }
    }

    /// Parses and analyses a TeX source.
    pub fn of_tex(text: &[u8]) -> (analysis: Analysis)
        ensures
            analysis.describes_tex(text@),
            links_within(analysis.links@, text@.len() as int),
    {
        let found = parse_tex(text);
        Analysis::from_commands(text, &found)
    }

    /// Parses and analyses a bibliography.
    pub fn of_bib(text: &[u8]) -> (analysis: Analysis)
        ensures
            analysis.describes_bib(text@),
            forall|k: int|
                0 <= k < analysis.entries@.len() ==> entry_within(
                    #[trigger] analysis.entries@[k],
                    text@.len() as int,
                ),
    {
        Analysis {
            links: Vec::new(),
            labels: Vec::new(),
            citations: Vec::new(),
            environments: Vec::new(),
            defined_environments: Vec::new(),
            defined_commands: Vec::new(),
            commands: Vec::new(),
            entries: parse_bibtex(text),
            diagnostics: Vec::new(),
        }
    }

    /// Parses and analyses a document. The result is a function of the
    /// language and the text.
    pub fn of(language: Language, text: &[u8]) -> (analysis: Analysis)
        ensures
            analysis.describes(language, text@),
            links_within(analysis.links@, text@.len() as int),
            forall|k: int|
                0 <= k < analysis.entries@.len() ==> entry_within(
                    #[trigger] analysis.entries@[k],
                    text@.len() as int,
                ),
    {
        match language {
            Language::Tex => Analysis::of_tex(text),
            Language::Bib => Analysis::of_bib(text),
            _ => Analysis::empty(),
        }
    }
}

/// The analysis of a document is a function of its language and its text:
/// two analyses of the same text, read as the same language, hold the same
/// lists.
pub proof fn lemma_analysis_determined(
    first: Analysis,
    second: Analysis,
    language: Language,
    text: Seq<u8>,
)
    requires
        first.describes(language, text),
        second.describes(language, text),
    ensures
        first.links@ =~= second.links@,
        first.labels@ =~= second.labels@,
        first.citations@ =~= second.citations@,
        first.environments@ =~= second.environments@,
        first.defined_environments@ =~= second.defined_environments@,
        first.defined_commands@ =~= second.defined_commands@,
        first.commands@ =~= second.commands@,
        first.entries@ =~= second.entries@,
        first.diagnostics@ =~= second.diagnostics@,
{
}

} // verus!
