//! The entries of a bibliography, read from its bytes.
//!
//! An entry is an at sign, a kind made of letters, and a brace group. Inside
//! the group stands the key, up to the first comma, and after it the fields:
//! a name, an equals sign, and a value in braces, in quotes, or bare.

use crate::analysis::{
    lemma_skip_blank, lemma_trim_end, skip_blank, skip_blanks, trim_blanks, trim_end, COMMA,
};
use crate::bytes::{find_byte, find_first, lemma_find_first};
use crate::syntax::{
    group_end, is_letter, lemma_group_end, lemma_name_end, name_end, scan_group, scan_name,
    OPEN_BRACE,
};
use crate::text::Span;
use vstd::prelude::*;
use vstd::string::*;

verus! {

/// The byte that starts an entry.
pub const AT: u8 = 64u8;

/// The byte between the name and the value of a field.
pub const EQUALS: u8 = 61u8;

/// The byte that delimits a quoted value.
pub const QUOTE: u8 = 34u8;

/// An entry: where its kind, its key and its fields stand.
#[derive(Debug, PartialEq, Eq, Clone, Copy, Structural)]
pub struct Entry {
    pub kind: Span,
    pub key: Span,
    pub body: Span,
}

/// A field of an entry: where its name and the inside of its value stand.
#[derive(Debug, PartialEq, Eq, Clone, Copy, Structural)]
pub struct Field {
    pub name: Span,
    pub value: Span,
}

/// The entry that starts with the at sign at `i`, and the index after it.
pub open spec fn entry_at(text: Seq<u8>, i: int) -> Option<(Entry, int)> {
    let kind_end = name_end(text, i + 1);
    let open = skip_blank(text, kind_end, text.len() as int);
    if 0 <= i < text.len() && text[i] == AT && kind_end > i + 1 && open < text.len() && text[open]
        == OPEN_BRACE {
        let close = group_end(text, open + 1, 0);
        if close < text.len() {
            let comma = find_first(text, open + 1, close, COMMA);
            let key_start = skip_blank(text, open + 1, comma);
            let key_end = trim_end(text, key_start, comma);
            let body_start = if comma < close {
                comma + 1
            } else {
                close
            };
            Some(
                (
                    Entry {
                        kind: Span { start: (i + 1) as usize, end: kind_end as usize },
                        key: Span { start: key_start as usize, end: key_end as usize },
                        body: Span { start: body_start as usize, end: close as usize },
                    },
                    close + 1,
                ),
            )
        } else {
            None
        }
    } else {
        None
    }
}

/// The entries of `text` from index `i` on.
pub open spec fn entries_from(text: Seq<u8>, i: int) -> Seq<Entry>
    decreases text.len() - i,
{
    if i < 0 || i >= text.len() {
        Seq::empty()
    } else {
        match entry_at(text, i) {
            Some((entry, next)) => if i < next {
                seq![entry] + entries_from(text, next)
            } else {
                entries_from(text, i + 1)
            },
            None => entries_from(text, i + 1),
        }
    }
}

/// The entries of a bibliography, in the order in which they stand.
pub open spec fn entries(text: Seq<u8>) -> Seq<Entry> {
    entries_from(text, 0)
}

/// Whether an entry lies within a text of `len` bytes.
pub open spec fn entry_within(entry: Entry, len: int) -> bool {
    &&& entry.kind.start < entry.kind.end <= len
    &&& entry.key.start <= entry.key.end <= len
    &&& entry.body.start <= entry.body.end < len
}

/// What an entry found at `i` looks like.
pub proof fn lemma_entry_at(text: Seq<u8>, i: int)
    requires
        text.len() <= usize::MAX,
    ensures
        entry_at(text, i) matches Some((entry, next)) ==> i < next <= text.len() && entry_within(
            entry,
            text.len() as int,
        ),
{
    if 0 <= i < text.len() {
        let kind_end = name_end(text, i + 1);
        lemma_name_end(text, i + 1);
        let open = skip_blank(text, kind_end, text.len() as int);
        lemma_skip_blank(text, kind_end, text.len() as int);
        if open < text.len() {
            let close = group_end(text, open + 1, 0);
            lemma_group_end(text, open + 1, 0);
            if close < text.len() {
                let comma = find_first(text, open + 1, close, COMMA);
                lemma_find_first(text, open + 1, close, COMMA);
                let key_start = skip_blank(text, open + 1, comma);
                lemma_skip_blank(text, open + 1, comma);
                lemma_trim_end(text, key_start, comma);
            }
        }
    }
}

/// All entries found from `i` on lie within the text.
pub proof fn lemma_entries_within(text: Seq<u8>, i: int)
    requires
        0 <= i,
        text.len() <= usize::MAX,
    ensures
        forall|k: int|
            0 <= k < entries_from(text, i).len() ==> entry_within(
                #[trigger] entries_from(text, i)[k],
                text.len() as int,
            ),
    decreases text.len() - i,
{
    if i < text.len() {
        lemma_entry_at(text, i);
        let all = entries_from(text, i);
        match entry_at(text, i) {
            Some((entry, next)) => {
                lemma_entries_within(text, next);
                let rest = entries_from(text, next);
                assert(all == seq![entry] + rest);
                assert forall|k: int| 0 <= k < all.len() implies entry_within(
                    #[trigger] all[k],
                    text.len() as int,
                ) by {
                    if k > 0 {
                        assert(all[k] == rest[k - 1]);
                    }
                }
            },
            None => {
                lemma_entries_within(text, i + 1);
                assert(all == entries_from(text, i + 1));
            },
        }
    }
}

/// The entry that starts with the at sign at `i`, and the index after it.
pub fn scan_entry(text: &[u8], i: usize) -> (found: Option<(Entry, usize)>)
    requires
        i < text.len(),
    ensures
        match found {
            Some((entry, next)) => entry_at(text@, i as int) == Some((entry, next as int)),
            None => entry_at(text@, i as int) is None,
        },
{
    if text[i] != AT {
        return None;
    }
    let kind_end = scan_name(text, i + 1);
    let open = skip_blanks(text, kind_end, text.len());
    if kind_end > i + 1 && open < text.len() && text[open] == OPEN_BRACE {
        let close = scan_group(text, open + 1);
        if close < text.len() {
            let comma = find_byte(text, open + 1, close, COMMA);
            let key_start = skip_blanks(text, open + 1, comma);
            let key_end = trim_blanks(text, key_start, comma);
            let body_start = if comma < close {
                comma + 1
            } else {
                close
            };
            Some(
                (
                    Entry {
                        kind: Span { start: i + 1, end: kind_end },
                        key: Span { start: key_start, end: key_end },
                        body: Span { start: body_start, end: close },
                    },
                    close + 1,
                ),
            )
        } else {
            None
        }
    } else {
        None
    }
}

/// Reads the entries of a bibliography.
pub fn parse_bibtex(text: &[u8]) -> (found: Vec<Entry>)
    ensures
        found@ == entries(text@),
        forall|k: int| 0 <= k < found@.len() ==> entry_within(#[trigger] found@[k], text@.len() as int),
{
    let mut found: Vec<Entry> = Vec::new();
    let mut i: usize = 0;
    while i < text.len()
        invariant
            0 <= i <= text.len(),
            found@ + entries_from(text@, i as int) == entries(text@),
        decreases text.len() - i,
    {
        let ghost before = found@;
        proof {
            lemma_entry_at(text@, i as int);
        }
        match scan_entry(text, i) {
            Some((entry, next)) => {
                found.push(entry);
                assert(before.push(entry) + entries_from(text@, next as int) =~= before + (seq![entry]
                    + entries_from(text@, next as int)));
                i = next;
            },
            None => {
                i += 1;
            },
        }
    }
    proof {
        assert(found@ + Seq::<Entry>::empty() =~= found@);
        lemma_entries_within(text@, 0);
    }
    found
}

/// A byte that may stand in the name of a field.
pub open spec fn is_name_byte(byte: u8) -> bool {
    is_letter(byte) || (48 <= byte <= 57) || byte == 95 || byte == 45
}

/// The end of the run of name bytes that starts at `i`, within `[i, to)`.
pub open spec fn field_name_end(text: Seq<u8>, i: int, to: int) -> int
    decreases to - i,
{
    if i < to && is_name_byte(text[i]) {
        field_name_end(text, i + 1, to)
    } else {
        i
    }
}

/// The first index in `[from, to)` that holds neither a blank nor a comma.
pub open spec fn skip_separators(text: Seq<u8>, from: int, to: int) -> int
    decreases to - from,
{
    if from < to && (crate::analysis::is_blank(text[from]) || text[from] == COMMA) {
        skip_separators(text, from + 1, to)
    } else {
        from
    }
}

/// The value that starts at `i`, and the index after it: the inside of a
/// brace group, the inside of a pair of quotes, or bare text up to the next
/// comma. A group or a quote that is not closed before `to` runs up to `to`.
pub open spec fn value_at(text: Seq<u8>, i: int, to: int) -> (Span, int) {
    if i < to && text[i] == OPEN_BRACE {
        let close = group_end(text, i + 1, 0);
        if close < to {
            (Span { start: (i + 1) as usize, end: close as usize }, close + 1)
        } else {
            (Span { start: (i + 1) as usize, end: to as usize }, to)
        }
    } else if i < to && text[i] == QUOTE {
        let close = find_first(text, i + 1, to, QUOTE);
        (
            Span { start: (i + 1) as usize, end: close as usize },
            if close < to {
                close + 1
            } else {
                to
            },
        )
    } else {
        let end = find_first(text, i, to, COMMA);
        (Span { start: i as usize, end: trim_end(text, i, end) as usize }, end)
    }
}

/// The fields of `text` in `[i, to)`. Reading stops at what is no field.
pub open spec fn fields_from(text: Seq<u8>, i: int, to: int) -> Seq<Field>
    decreases to - i,
{
    let start = skip_separators(text, i, to);
    if start >= to {
        Seq::empty()
    } else {
        let name_end = field_name_end(text, start, to);
        let equals = skip_blank(text, name_end, to);
        if name_end > start && equals < to && text[equals] == EQUALS {
            let value_start = skip_blank(text, equals + 1, to);
            let (value, next) = value_at(text, value_start, to);
            let field = Field { name: Span { start: start as usize, end: name_end as usize }, value };
            if i < next <= to {
                seq![field] + fields_from(text, next, to)
            } else {
                seq![field]
            }
        } else {
            Seq::empty()
        }
    }
}

/// The fields of an entry.
pub open spec fn fields_of(text: Seq<u8>, entry: Entry) -> Seq<Field> {
    fields_from(text, entry.body.start as int, entry.body.end as int)
}

/// Whether a field lies within `[0, to)`.
pub open spec fn field_within(field: Field, to: int) -> bool {
    &&& field.name.start < field.name.end <= to
    &&& field.value.start <= field.value.end <= to
}

proof fn lemma_skip_separators(text: Seq<u8>, from: int, to: int)
    requires
        from <= to,
    ensures
        from <= skip_separators(text, from, to) <= to,
    decreases to - from,
{
    if from < to && (crate::analysis::is_blank(text[from]) || text[from] == COMMA) {
        lemma_skip_separators(text, from + 1, to);
    }
}

proof fn lemma_field_name_end(text: Seq<u8>, i: int, to: int)
    requires
        i <= to,
    ensures
        i <= field_name_end(text, i, to) <= to,
    decreases to - i,
{
    if i < to && is_name_byte(text[i]) {
        lemma_field_name_end(text, i + 1, to);
    }
}

/// A value lies between where it starts and `to`, and reading goes on after
/// where the value starts, unless the value is bare and empty.
pub proof fn lemma_value_at(text: Seq<u8>, i: int, to: int)
    requires
        0 <= i <= to <= text.len() <= usize::MAX,
    ensures
        i <= value_at(text, i, to).0.start <= value_at(text, i, to).0.end <= to,
        i <= value_at(text, i, to).1 <= to,
{
    if i < to && text[i] == OPEN_BRACE {
        lemma_group_end(text, i + 1, 0);
    } else if i < to && text[i] == QUOTE {
        lemma_find_first(text, i + 1, to, QUOTE);
    } else {
        lemma_find_first(text, i, to, COMMA);
        lemma_trim_end(text, i, find_first(text, i, to, COMMA));
    }
}

/// All fields found lie within the range that was read.
pub proof fn lemma_fields_within(text: Seq<u8>, i: int, to: int)
    requires
        0 <= i <= to <= text.len() <= usize::MAX,
    ensures
        forall|k: int|
            0 <= k < fields_from(text, i, to).len() ==> field_within(
                #[trigger] fields_from(text, i, to)[k],
                to,
            ),
    decreases to - i,
{
    let start = skip_separators(text, i, to);
    lemma_skip_separators(text, i, to);
    if start < to {
        let name_end = field_name_end(text, start, to);
        lemma_field_name_end(text, start, to);
        let equals = skip_blank(text, name_end, to);
        lemma_skip_blank(text, name_end, to);
        if name_end > start && equals < to && text[equals] == EQUALS {
            let value_start = skip_blank(text, equals + 1, to);
            lemma_skip_blank(text, equals + 1, to);
            lemma_value_at(text, value_start, to);
            let (value, next) = value_at(text, value_start, to);
            let field = Field { name: Span { start: start as usize, end: name_end as usize }, value };
            let all = fields_from(text, i, to);
            if i < next <= to {
                lemma_fields_within(text, next, to);
                let rest = fields_from(text, next, to);
                assert(all == seq![field] + rest);
                assert forall|k: int| 0 <= k < all.len() implies field_within(#[trigger] all[k], to) by {
                    if k > 0 {
                        assert(all[k] == rest[k - 1]);
                    }
                }
            } else {
                assert(all == seq![field]);
            }
        }
    }
}

/// The value that starts at `i`, and the index after it.
pub fn scan_value(text: &[u8], i: usize, to: usize) -> (found: (Span, usize))
    requires
        i <= to <= text.len(),
    ensures
        (found.0, found.1 as int) == value_at(text@, i as int, to as int),
        i <= found.0.start <= found.0.end <= to,
        i <= found.1 <= to,
{
    let size = text.len();
    proof {
        lemma_value_at(text@, i as int, to as int);
    }
    if i < to && text[i] == OPEN_BRACE {
        let close = scan_group(text, i + 1);
        if close < to {
            (Span { start: i + 1, end: close }, close + 1)
        } else {
            (Span { start: i + 1, end: to }, to)
        }
    } else if i < to && text[i] == QUOTE {
        let close = find_byte(text, i + 1, to, QUOTE);
        (
            Span { start: i + 1, end: close },
            if close < to {
                close + 1
            } else {
                to
            },
        )
    } else {
        let end = find_byte(text, i, to, COMMA);
        (Span { start: i, end: trim_blanks(text, i, end) }, end)
    }
}

/// Reads the fields of `text` in `[from, to)`.
pub fn parse_fields(text: &[u8], from: usize, to: usize) -> (found: Vec<Field>)
    requires
        from <= to <= text.len(),
    ensures
        found@ == fields_from(text@, from as int, to as int),
        forall|k: int| 0 <= k < found@.len() ==> field_within(#[trigger] found@[k], to as int),
{
    let mut found: Vec<Field> = Vec::new();
    let mut i: usize = from;
    let mut done: bool = false;
    while !done
        invariant
            from <= i <= to <= text.len(),
            !done ==> found@ + fields_from(text@, i as int, to as int) == fields_from(
                text@,
                from as int,
                to as int,
            ),
            done ==> found@ == fields_from(text@, from as int, to as int),
        decreases to - i, (if done { 0int } else { 1int }),
    {
        let ghost before = found@;
        let mut start: usize = i;
        while start < to && (text[start] == 32 || text[start] == 9 || text[start] == 10
            || text[start] == 13 || text[start] == COMMA)
            invariant
                i <= start <= to <= text.len(),
                skip_separators(text@, start as int, to as int) == skip_separators(
                    text@,
                    i as int,
                    to as int,
                ),
            decreases to - start,
        {
            start += 1;
        }
        if start >= to {
            assert(before + Seq::<Field>::empty() =~= before);
            done = true;
        } else {
            let mut name_end: usize = start;
            while name_end < to && ((65 <= text[name_end] && text[name_end] <= 90) || (97
                <= text[name_end] && text[name_end] <= 122) || (48 <= text[name_end]
                && text[name_end] <= 57) || text[name_end] == 95 || text[name_end] == 45)
                invariant
                    start <= name_end <= to <= text.len(),
                    field_name_end(text@, name_end as int, to as int) == field_name_end(
                        text@,
                        start as int,
                        to as int,
                    ),
                decreases to - name_end,
            {
                name_end += 1;
            }
            let equals = skip_blanks(text, name_end, to);
            if name_end > start && equals < to && text[equals] == EQUALS {
                let value_start = skip_blanks(text, equals + 1, to);
                let (value, next) = scan_value(text, value_start, to);
                let field = Field { name: Span { start, end: name_end }, value };
                found.push(field);
                if i < next {
                    assert(before.push(field) + fields_from(text@, next as int, to as int)
                        =~= before + (seq![field] + fields_from(text@, next as int, to as int)));
                    i = next;
                } else {
                    assert(before.push(field) =~= before + seq![field]);
                    done = true;
                }
            } else {
                assert(before + Seq::<Field>::empty() =~= before);
                done = true;
            }
        }
    }
    let size = text.len();
    proof {
        lemma_fields_within(text@, from as int, to as int);
    }
    found
}

} // verus!
