//! Texts that hold UTF-8 keep holding it under changes.
//!
//! The offset that a position stands for is the start of a character of the
//! text, or its end, so a change never cuts a character in two: what is left
//! of the text on either side of a change is UTF-8, and so is the whole once
//! the new text stands between them.

use crate::document::{
    apply_change, apply_changes, bring_utf8, change_end, change_start, splice, TextChange,
};
use crate::text::{
    advance, lemma_advance, lemma_line_starts, line_end, line_starts, offset_of, step_bytes,
    width_of, Position, NEWLINE,
};
use vstd::prelude::*;
use vstd::utf8::{
    is_char_boundary, is_char_boundary_iff_not_is_continuation_byte,
    is_char_boundary_start_end_of_seq, is_continuation_byte, length_of_first_scalar,
    pop_first_scalar, valid_first_scalar, valid_utf8, valid_utf8_concat, valid_utf8_split,
};

verus! {

/// What lossy decoding makes of `bytes`: the bytes themselves where they are
/// UTF-8, and otherwise the bytes with U+FFFD in place of what is not.
pub uninterp spec fn lossy_text(bytes: Seq<u8>) -> Seq<u8>;

/// `String::from_utf8_lossy` of std, with the string handed back as its
/// bytes. The result is UTF-8, as every `String` is, and it is the input
/// where the input is UTF-8; what stands for the invalid parts of other
/// input is not said here.
#[verifier::external_body]
pub(crate) fn from_utf8_lossy(bytes: &[u8]) -> (text: Vec<u8>)
    ensures
        text@ == lossy_text(bytes@),
        valid_utf8(text@),
        valid_utf8(bytes@) ==> text@ == bytes@,
{
    String::from_utf8_lossy(bytes).into_owned().into_bytes()
}

/// The character that starts at `at` takes as many bytes as its first byte
/// says, all within the text; the next character starts behind them, and none
/// starts among them.
pub proof fn lemma_character_at(text: Seq<u8>, at: int)
    requires
        valid_utf8(text),
        0 <= at < text.len(),
        is_char_boundary(text, at),
    ensures
        at + width_of(text[at]) <= text.len(),
        is_char_boundary(text, at + width_of(text[at])),
        forall|k: int| at < k < at + width_of(text[at]) ==> !is_char_boundary(text, k),
{
    let len = text.len() as int;
    valid_utf8_split(text, at);
    let rest = text.subrange(at, len);
    assert(valid_first_scalar(rest) && valid_utf8(pop_first_scalar(rest)));
    let width = length_of_first_scalar(rest);
    assert(rest[0] == text[at]);
    assert(width == width_of(text[at]));
    let after = pop_first_scalar(rest);
    assert(after =~= text.subrange(at + width, len));
    if at + width < len {
        assert(valid_first_scalar(after));
        assert(after[0] == text[at + width]);
        is_char_boundary_iff_not_is_continuation_byte(text, at + width);
    } else {
        is_char_boundary_start_end_of_seq(text);
    }
    assert forall|k: int| at < k < at + width implies !is_char_boundary(text, k) by {
        assert(rest[k - at] == text[k]);
        assert(is_continuation_byte(text[k]));
        is_char_boundary_iff_not_is_continuation_byte(text, k);
    }
}

/// Counting whole characters from the start of one, up to the start of
/// another, ends at the start of a character.
pub proof fn lemma_advance_on_boundary(text: Seq<u8>, at: int, end: int, units: int)
    requires
        valid_utf8(text),
        0 <= at <= end <= text.len(),
        is_char_boundary(text, at),
        is_char_boundary(text, end),
    ensures
        is_char_boundary(text, advance(text, at, end, units)),
    decreases end - at,
{
    if at < end && units >= crate::text::step_units(text, at, end) {
        lemma_character_at(text, at);
        assert(step_bytes(text, at, end) == width_of(text[at]));
        lemma_advance_on_boundary(
            text,
            at + step_bytes(text, at, end),
            end,
            units - crate::text::step_units(text, at, end),
        );
    }
}

/// A character starts wherever a newline stands, and behind it.
pub proof fn lemma_newline_on_boundary(text: Seq<u8>, at: int)
    requires
        valid_utf8(text),
        0 <= at < text.len(),
        text[at] == NEWLINE,
    ensures
        is_char_boundary(text, at),
        is_char_boundary(text, at + 1),
{
    is_char_boundary_iff_not_is_continuation_byte(text, at);
    lemma_character_at(text, at);
}

/// The offset that a position stands for in a text of UTF-8 is the start of
/// a character, or the end of the text.
pub proof fn lemma_offset_on_boundary(text: Seq<u8>, position: Position)
    requires
        valid_utf8(text),
    ensures
        0 <= offset_of(text, position) <= text.len(),
        is_char_boundary(text, offset_of(text, position)),
{
    lemma_line_starts(text);
    is_char_boundary_start_end_of_seq(text);
    let starts = line_starts(text);
    let len = text.len() as int;
    if position.line < starts.len() {
        let line = position.line as int;
        let start = starts[line];
        let end = line_end(starts, len, line);
        if line >= 1 {
            lemma_newline_on_boundary(text, start - 1);
        }
        if line + 1 < starts.len() {
            assert(starts[line] < starts[line + 1]);
            lemma_newline_on_boundary(text, starts[line + 1] - 1);
        }
        lemma_advance(text, start, end, position.character as int);
        lemma_advance_on_boundary(text, start, end, position.character as int);
    }
}

/// One change that brings UTF-8 to a text of UTF-8 leaves UTF-8.
pub proof fn lemma_change_keeps_utf8(text: Seq<u8>, change: TextChange)
    requires
        valid_utf8(text),
        valid_utf8(change.text@),
    ensures
        valid_utf8(apply_change(text, change)),
{
    match change.range {
        Some(range) => {
            lemma_offset_on_boundary(text, range.start);
            lemma_offset_on_boundary(text, range.end);
            let start = change_start(text, range);
            let end = change_end(text, range);
            valid_utf8_split(text, start);
            valid_utf8_split(text, end);
            valid_utf8_concat(text.subrange(0, start), change.text@);
            valid_utf8_concat(
                text.subrange(0, start) + change.text@,
                text.subrange(end, text.len() as int),
            );
            assert(apply_change(text, change) == splice(text, start, end, change.text@));
        },
        None => {},
    }
}

/// A batch of changes that bring UTF-8, applied in order to a text of UTF-8,
/// leaves UTF-8.
pub proof fn lemma_changes_keep_utf8(text: Seq<u8>, changes: Seq<TextChange>)
    requires
        valid_utf8(text),
        bring_utf8(changes),
    ensures
        valid_utf8(apply_changes(text, changes)),
    decreases changes.len(),
{
    if changes.len() > 0 {
        assert forall|k: int| 0 <= k < changes.drop_last().len() implies valid_utf8(
            (#[trigger] changes.drop_last()[k]).text@,
        ) by {
            assert(changes.drop_last()[k] == changes[k]);
        }
        lemma_changes_keep_utf8(text, changes.drop_last());
        lemma_change_keeps_utf8(apply_changes(text, changes.drop_last()), changes.last());
    }
}

} // verus!
