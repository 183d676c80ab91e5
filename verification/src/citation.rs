//! A short rendering of a bibliography entry, for editors to show beside a
//! citation: the authors, the year in parentheses, and the title in
//! emphasis, each as far as the entry has it.
//!
//! Values are shown without their braces and with every run of blanks as one
//! space. Field names and entry kinds are read without regard to case.

use crate::analysis::is_blank;
use crate::bibtex::{
    entries, entry_within, field_within, fields_of, parse_bibtex, parse_fields, Entry, Field,
};
use crate::bytes::{bytes_of, extend_range};
use crate::syntax::{CLOSE_BRACE, OPEN_BRACE};
use crate::text::Span;
use vstd::prelude::*;
use vstd::string::*;

verus! {

/// The byte that a run of blanks is shown as.
pub const SPACE: u8 = 32u8;

/// The byte that marks emphasis.
pub const STAR: u8 = 42u8;

/// The byte that ends a part of a rendering.
pub const PERIOD: u8 = 46u8;

/// The byte before a year.
pub const OPEN_PAREN: u8 = 40u8;

/// The byte after a year.
pub const CLOSE_PAREN: u8 = 41u8;

/// An ASCII capital as its small letter; any other byte as it is.
pub open spec fn folded(byte: u8) -> u8 {
    if 65 <= byte <= 90 {
        (byte + 32) as u8
    } else {
        byte
    }
}

/// Whether two byte strings are the same but for the case of ASCII letters.
pub open spec fn same_folded(a: Seq<u8>, b: Seq<u8>) -> bool {
    &&& a.len() == b.len()
    &&& forall|k: int| 0 <= k < a.len() ==> folded(a[k]) == folded(b[k])
}

/// Whether the bytes of `text` in `[from, to)` are `other` but for case.
pub fn range_same_folded(text: &[u8], from: usize, to: usize, other: &[u8]) -> (same: bool)
    requires
        from <= to <= text.len(),
    ensures
        same == same_folded(text@.subrange(from as int, to as int), other@),
{
    if to - from != other.len() {
        return false;
    }
    let ghost part = text@.subrange(from as int, to as int);
    let mut k: usize = 0;
    while k < other.len()
        invariant
            0 <= k <= other.len(),
            from <= to <= text.len(),
            to - from == other.len(),
            part == text@.subrange(from as int, to as int),
            forall|j: int| 0 <= j < k ==> folded(part[j]) == folded(other@[j]),
        decreases other.len() - k,
    {
        let a = text[from + k];
        let b = other[k];
        let low_a = if 65 <= a && a <= 90 {
            a + 32
        } else {
            a
        };
        let low_b = if 65 <= b && b <= 90 {
            b + 32
        } else {
            b
        };
        assert(part[k as int] == a);
        if low_a != low_b {
            return false;
        }
        k += 1;
    }
    true
}

/// The index of the first field at or after `from` with this name.
pub open spec fn field_named(text: Seq<u8>, fields: Seq<Field>, name: Seq<u8>, from: int) -> Option<
    int,
>
    decreases fields.len() - from,
{
    if from < 0 || from >= fields.len() {
        None
    } else if same_folded(
        text.subrange(fields[from].name.start as int, fields[from].name.end as int),
        name,
    ) {
        Some(from)
    } else {
        field_named(text, fields, name, from + 1)
    }
}

/// The value of the first field with this name.
pub open spec fn value_named(text: Seq<u8>, fields: Seq<Field>, name: Seq<u8>) -> Option<Seq<u8>> {
    match field_named(text, fields, name, 0) {
        Some(k) => Some(text.subrange(fields[k].value.start as int, fields[k].value.end as int)),
        None => None,
    }
}

/// `value` from index `i` on without braces and with each run of blanks as
/// one space; `started` says that something was shown before, `pending` that a
/// run of blanks waits to be shown. Blanks at either end are not shown.
pub open spec fn cleaned_from(value: Seq<u8>, i: int, started: bool, pending: bool) -> Seq<u8>
    decreases value.len() - i,
{
    if i < 0 || i >= value.len() {
        Seq::empty()
    } else if value[i] == OPEN_BRACE || value[i] == CLOSE_BRACE {
        cleaned_from(value, i + 1, started, pending)
    } else if is_blank(value[i]) {
        cleaned_from(value, i + 1, started, started)
    } else if pending {
        seq![SPACE, value[i]] + cleaned_from(value, i + 1, true, false)
    } else {
        seq![value[i]] + cleaned_from(value, i + 1, true, false)
    }
}

/// A value as it is shown.
pub open spec fn cleaned(value: Seq<u8>) -> Seq<u8> {
    cleaned_from(value, 0, false, false)
}

/// The rendering made of the parts that an entry has, each part as it is
/// shown: `Authors (Year). *Title*.`
pub open spec fn composed(author: Option<Seq<u8>>, year: Option<Seq<u8>>, title: Option<Seq<u8>>) -> Seq<
    u8,
> {
    let head = match (author, year) {
        (Some(a), Some(y)) => a + seq![SPACE, OPEN_PAREN] + y + seq![CLOSE_PAREN, PERIOD],
        (Some(a), None) => a + seq![PERIOD],
        (None, Some(y)) => seq![OPEN_PAREN] + y + seq![CLOSE_PAREN, PERIOD],
        (None, None) => Seq::empty(),
    };
    match title {
        Some(t) => (if head.len() > 0 {
            head + seq![SPACE]
        } else {
            head
        }) + seq![STAR] + t + seq![STAR, PERIOD],
        None => head,
    }
}

/// A value as it is shown, if there is one.
pub open spec fn shown(value: Option<Seq<u8>>) -> Option<Seq<u8>> {
    match value {
        Some(v) => Some(cleaned(v)),
        None => None,
    }
}

/// The year of an entry: its `year` field, or else its `date` field.
pub open spec fn year_of(text: Seq<u8>, fields: Seq<Field>) -> Option<Seq<u8>> {
    match value_named(text, fields, bytes_of("year")) {
        Some(year) => Some(year),
        None => value_named(text, fields, bytes_of("date")),
    }
}

/// The rendering of an entry. An entry that has neither an author, nor a
/// year, nor a title has none.
pub open spec fn rendered(text: Seq<u8>, entry: Entry) -> Option<Seq<u8>> {
    let fields = fields_of(text, entry);
    let author = value_named(text, fields, bytes_of("author"));
    let year = year_of(text, fields);
    let title = value_named(text, fields, bytes_of("title"));
    if author is None && year is None && title is None {
        None
    } else {
        Some(composed(shown(author), shown(year), shown(title)))
    }
}

/// Whether an entry of this kind describes a work: the kinds `comment`,
/// `preamble` and `string` do not.
pub open spec fn is_reference(text: Seq<u8>, entry: Entry) -> bool {
    let kind = text.subrange(entry.kind.start as int, entry.kind.end as int);
    !same_folded(kind, bytes_of("comment")) && !same_folded(kind, bytes_of("preamble"))
        && !same_folded(kind, bytes_of("string"))
}

/// The index of the first entry at or after `from` that describes a work.
pub open spec fn reference_from(text: Seq<u8>, all: Seq<Entry>, from: int) -> Option<int>
    decreases all.len() - from,
{
    if from < 0 || from >= all.len() {
        None
    } else if is_reference(text, all[from]) {
        Some(from)
    } else {
        reference_from(text, all, from + 1)
    }
}

/// The index of the first entry at or after `from` that describes a work
/// under this key.
pub open spec fn keyed_from(text: Seq<u8>, all: Seq<Entry>, key: Seq<u8>, from: int) -> Option<int>
    decreases all.len() - from,
{
    if from < 0 || from >= all.len() {
        None
    } else if is_reference(text, all[from]) && text.subrange(
        all[from].key.start as int,
        all[from].key.end as int,
    ) == key {
        Some(from)
    } else {
        keyed_from(text, all, key, from + 1)
    }
}

/// The rendering of the first entry of a bibliography that describes a work.
pub open spec fn rendered_first(text: Seq<u8>) -> Option<Seq<u8>> {
    match reference_from(text, entries(text), 0) {
        Some(k) => rendered(text, entries(text)[k]),
        None => None,
    }
}

/// The value of the first field with this name.
pub fn lookup(text: &[u8], fields: &Vec<Field>, name: &str) -> (found: Option<Span>)
    requires
        forall|k: int| 0 <= k < fields@.len() ==> field_within(#[trigger] fields@[k], text@.len() as int),
    ensures
        match found {
            Some(value) => field_named(text@, fields@, bytes_of(name), 0) matches Some(k)
                && fields@[k].value == value && value.start <= value.end <= text@.len(),
            None => field_named(text@, fields@, bytes_of(name), 0) is None,
        },
{
    let wanted = name.as_bytes();
    let mut k: usize = 0;
    while k < fields.len()
        invariant
            0 <= k <= fields@.len(),
            wanted@ == bytes_of(name),
            forall|j: int|
                0 <= j < fields@.len() ==> field_within(#[trigger] fields@[j], text@.len() as int),
            field_named(text@, fields@, wanted@, k as int) == field_named(text@, fields@, wanted@, 0),
        decreases fields@.len() - k,
    {
        let field = fields[k];
        assert(field_within(fields@[k as int], text@.len() as int));
        if range_same_folded(text, field.name.start, field.name.end, wanted) {
            return Some(field.value);
        }
        k += 1;
    }
    None
}

/// Appends the bytes of `text` in `[from, to)` as they are shown.
pub fn push_cleaned(target: &mut Vec<u8>, text: &[u8], from: usize, to: usize)
    requires
        from <= to <= text.len(),
    ensures
        final(target)@ == old(target)@ + cleaned(text@.subrange(from as int, to as int)),
{
    let ghost value = text@.subrange(from as int, to as int);
    let mut started: bool = false;
    let mut pending: bool = false;
    let mut i: usize = from;
    while i < to
        invariant
            from <= i <= to <= text.len(),
            value == text@.subrange(from as int, to as int),
            target@ + cleaned_from(value, i - from, started, pending) == old(target)@ + cleaned(value),
        decreases to - i,
    {
        let byte = text[i];
        assert(value[i - from] == byte);
        let ghost before = target@;
        let ghost rest = cleaned_from(value, i - from + 1, true, false);
        if byte == OPEN_BRACE || byte == CLOSE_BRACE {
        } else if byte == 32 || byte == 9 || byte == 10 || byte == 13 {
            pending = started;
        } else {
            if pending {
                target.push(SPACE);
                target.push(byte);
                assert(target@ + rest =~= before + (seq![SPACE, byte] + rest));
            } else {
                target.push(byte);
                assert(target@ + rest =~= before + (seq![byte] + rest));
            }
            started = true;
            pending = false;
        }
        i += 1;
    }
    assert(target@ + Seq::<u8>::empty() =~= target@);
}

/// A value as it is shown.
fn show(text: &[u8], value: Option<Span>) -> (found: Option<Vec<u8>>)
    requires
        value matches Some(span) ==> span.start <= span.end <= text@.len(),
    ensures
        match value {
            Some(span) => found matches Some(bytes) && bytes@ == cleaned(
                text@.subrange(span.start as int, span.end as int),
            ),
            None => found is None,
        },
{
    match value {
        Some(span) => {
            let mut bytes: Vec<u8> = Vec::new();
            push_cleaned(&mut bytes, text, span.start, span.end);
            assert(Seq::<u8>::empty() + cleaned(text@.subrange(span.start as int, span.end as int))
                =~= cleaned(text@.subrange(span.start as int, span.end as int)));
            Some(bytes)
        },
        None => None,
    }
}

/// The bytes of each of the parts that there are.
pub open spec fn part(bytes: Option<Vec<u8>>) -> Option<Seq<u8>> {
    match bytes {
        Some(b) => Some(b@),
        None => None,
    }
}

/// Puts the parts of a rendering together.
fn compose(author: &Option<Vec<u8>>, year: &Option<Vec<u8>>, title: &Option<Vec<u8>>) -> (out: Vec<u8>)
    ensures
        out@ == composed(part(*author), part(*year), part(*title)),
{
    let mut out: Vec<u8> = Vec::new();
    match author {
        Some(a) => {
            extend_range(&mut out, a.as_slice(), 0, a.len());
            assert(a@.subrange(0, a@.len() as int) =~= a@);
        },
        None => {},
    }
    match year {
        Some(y) => {
            if author.is_some() {
                out.push(SPACE);
            }
            out.push(OPEN_PAREN);
            extend_range(&mut out, y.as_slice(), 0, y.len());
            assert(y@.subrange(0, y@.len() as int) =~= y@);
            out.push(CLOSE_PAREN);
            out.push(PERIOD);
        },
        None => {
            if author.is_some() {
                out.push(PERIOD);
            }
        },
    }
    let ghost head = out@;
    assert(head =~= match (part(*author), part(*year)) {
        (Some(a), Some(y)) => a + seq![SPACE, OPEN_PAREN] + y + seq![CLOSE_PAREN, PERIOD],
        (Some(a), None) => a + seq![PERIOD],
        (None, Some(y)) => seq![OPEN_PAREN] + y + seq![CLOSE_PAREN, PERIOD],
        (None, None) => Seq::<u8>::empty(),
    });
    match title {
        Some(t) => {
            if out.len() > 0 {
                out.push(SPACE);
            }
            out.push(STAR);
            extend_range(&mut out, t.as_slice(), 0, t.len());
            assert(t@.subrange(0, t@.len() as int) =~= t@);
            out.push(STAR);
            out.push(PERIOD);
            assert(out@ =~= (if head.len() > 0 {
                head + seq![SPACE]
            } else {
                head
            }) + seq![STAR] + t@ + seq![STAR, PERIOD]);
        },
        None => {},
    }
    out
}

/// Whether an entry describes a work.
pub fn describes_work(text: &[u8], entry: &Entry) -> (yes: bool)
    requires
        entry_within(*entry, text@.len() as int),
    ensures
        yes == is_reference(text@, *entry),
{
    !range_same_folded(text, entry.kind.start, entry.kind.end, "comment".as_bytes())
        && !range_same_folded(text, entry.kind.start, entry.kind.end, "preamble".as_bytes())
        && !range_same_folded(text, entry.kind.start, entry.kind.end, "string".as_bytes())
}

/// Renders an entry of `text`.
pub fn render(text: &[u8], entry: &Entry) -> (out: Option<Vec<u8>>)
    requires
        entry_within(*entry, text@.len() as int),
    ensures
        part(out) == rendered(text@, *entry),
{
    let fields = parse_fields(text, entry.body.start, entry.body.end);
    let author = lookup(text, &fields, "author");
    let year = match lookup(text, &fields, "year") {
        Some(year) => Some(year),
        None => lookup(text, &fields, "date"),
    };
    let title = lookup(text, &fields, "title");
    if author.is_none() && year.is_none() && title.is_none() {
        return None;
    }
    let author = show(text, author);
    let year = show(text, year);
    let title = show(text, title);
    Some(compose(&author, &year, &title))
}

/// The first entry among `all` that describes a work under this key.
pub fn find_entry(text: &[u8], all: &Vec<Entry>, key: &[u8]) -> (found: Option<Entry>)
    requires
        forall|k: int| 0 <= k < all@.len() ==> entry_within(#[trigger] all@[k], text@.len() as int),
    ensures
        match found {
            Some(entry) => keyed_from(text@, all@, key@, 0) matches Some(k) && all@[k] == entry
                && entry_within(entry, text@.len() as int),
            None => keyed_from(text@, all@, key@, 0) is None,
        },
{
    let mut k: usize = 0;
    while k < all.len()
        invariant
            0 <= k <= all@.len(),
            forall|j: int| 0 <= j < all@.len() ==> entry_within(#[trigger] all@[j], text@.len() as int),
            keyed_from(text@, all@, key@, k as int) == keyed_from(text@, all@, key@, 0),
        decreases all@.len() - k,
    {
        let entry = all[k];
        assert(entry_within(all@[k as int], text@.len() as int));
        if describes_work(text, &entry) && crate::bytes::range_same(
            text,
            entry.key.start,
            entry.key.end,
            key,
        ) {
            return Some(entry);
        }
        k += 1;
    }
    None
}

/// Renders the first entry of a bibliography that describes a work: its
/// authors, its year in parentheses, and its title in emphasis, each as far
/// as the entry has it. There is no rendering where the bibliography has no
/// such entry, or the entry has none of the three.
pub fn render_first(input: &[u8]) -> (out: Option<Vec<u8>>)
    ensures
        part(out) == rendered_first(input@),
{
    let all = parse_bibtex(input);
    let mut k: usize = 0;
    while k < all.len()
        invariant
            0 <= k <= all@.len(),
            all@ == entries(input@),
            forall|j: int| 0 <= j < all@.len() ==> entry_within(#[trigger] all@[j], input@.len() as int),
            reference_from(input@, all@, k as int) == reference_from(input@, all@, 0),
        decreases all@.len() - k,
    {
        let entry = all[k];
        assert(entry_within(all@[k as int], input@.len() as int));
        if describes_work(input, &entry) {
            return render(input, &entry);
        }
        k += 1;
    }
    None
}

/// A rendering is never empty: whichever part an entry has leaves at least
/// its closing period.
pub proof fn lemma_rendering_not_empty(text: Seq<u8>, entry: Entry)
    requires
        rendered(text, entry) is Some,
    ensures
        rendered(text, entry)->0.len() > 0,
{
    let fields = fields_of(text, entry);
    let author = shown(value_named(text, fields, bytes_of("author")));
    let year = shown(year_of(text, fields));
    let title = shown(value_named(text, fields, bytes_of("title")));
    assert(author is Some || year is Some || title is Some);
    assert(composed(author, year, title).len() > 0);
}

/// Renders the first entry of a bibliography that describes a work, for a
/// bibliography that has such an entry with an author, a year or a title.
pub fn render_entry(input: &[u8]) -> (out: Vec<u8>)
    requires
        rendered_first(input@) is Some,
    ensures
        out@ == rendered_first(input@)->0,
        out@.len() > 0,
{
    proof {
        let k = reference_from(input@, entries(input@), 0)->0;
        lemma_rendering_not_empty(input@, entries(input@)[k]);
    }
    let found = render_first(input);
    assert(part(found) is Some);
    found.unwrap()
}

} // verus!
